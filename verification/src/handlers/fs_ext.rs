//! Option parsing shared by the structural file commands.

use vstd::prelude::*;
use crate::parser::Arg;
use crate::policy::risk::{arg_views, short_flag_word};
use crate::simulation::diff::string_views;
use crate::fs_abstraction::{SandboxPath, file_name_of, join_component, path_failure_text, resolve_path};
use crate::handlers::{error_line, failure_shown, names_below_root, note_failure, sort_names, CommandResult};
use crate::handlers::{flatten, host_lines, lemma_flatten_push, lemma_host_lines_extend, per_operand_stderr};
use crate::handlers::{lemma_host_line, lemma_segment_step, segments_fit, unresolved_refusal};
use crate::handlers::{ls_output, ls_text, sorted_names};
use crate::simulation::resolver::{FsError, LayeredView};
use crate::handlers::{glob_match, glob_spec};
use crate::text::{decimal, decimal_u64};
use crate::numbers::{parse_u32_radix, parse_u64, parsed_u32, parsed_u64};
use crate::sandbox::worker::FileKind;
use crate::session::TerminalSession;
use crate::text::{has_prefix, push_all, str_eq, starts_with};
use crate::text::{chars_of, contains_char, push_str, string_from_chars};

verus! {

/// The flag characters of all short-flag clusters among `args`, in order.
pub open spec fn flag_chars(args: Seq<Seq<char>>) -> Seq<char>
    decreases args.len(),
{
    if args.len() == 0 {
        Seq::empty()
    } else if short_flag_word(args.last()) {
        flag_chars(args.drop_last()) + args.last().skip(1)
    } else {
        flag_chars(args.drop_last())
    }
}

/// The arguments that are no short-flag cluster, in order.
pub open spec fn operands(args: Seq<Seq<char>>) -> Seq<Seq<char>>
    decreases args.len(),
{
    if args.len() == 0 {
        Seq::empty()
    } else if short_flag_word(args.last()) {
        operands(args.drop_last())
    } else {
        operands(args.drop_last()).push(args.last())
    }
}

/// Splits `args` into the characters of its short-flag clusters (`-rf`
/// gives `r` and `f`) and its other arguments.
pub fn short_flags(args: &[Arg]) -> (r: (Vec<char>, Vec<String>))
    ensures
        r.0@ == flag_chars(arg_views(args@)),
        string_views(r.1@) == operands(arg_views(args@)),
{
    let ghost av = arg_views(args@);
    let mut flags: Vec<char> = Vec::new();
    let mut ops: Vec<String> = Vec::new();
    let mut i: usize = 0;
    assert(string_views(ops@) =~= operands(av.take(0)));
    while i < args.len()
        invariant
            av == arg_views(args@),
            i <= args@.len(),
            flags@ == flag_chars(av.take(i as int)),
            string_views(ops@) == operands(av.take(i as int)),
        decreases args.len() - i,
    {
        let s = chars_of(args[i].as_str());
        assert(av.take(i + 1).drop_last() =~= av.take(i as int));
        assert(av.take(i + 1).last() == s@);
        if s.len() > 1 && s[0] == '-' && s[1] != '-' {
            let mut j: usize = 1;
            let ghost start = flags@;
            while j < s.len()
                invariant
                    1 <= j <= s@.len(),
                    flags@ == start + s@.subrange(1, j as int),
                decreases s.len() - j,
            {
                flags.push(s[j]);
                j = j + 1;
                assert(flags@ =~= start + s@.subrange(1, j as int));
            }
            assert(s@.subrange(1, s@.len() as int) =~= s@.skip(1));
        } else {
            let ghost before = string_views(ops@);
            let item = args[i].0.clone();
            ops.push(item);
            assert(string_views(ops@) =~= before.push(s@));
        }
        i = i + 1;
    }
    assert(av.take(args@.len() as int) =~= av);
    (flags, ops)
}

/// How a typed path resolves against the working directory, with the
/// refusal written as `RAW: reason`.
pub open spec fn resolved_arg(cwd: Seq<char>, raw: Seq<char>) -> Result<Seq<char>, Seq<char>> {
    match resolve_path(cwd, raw) {
        Ok(p) => Ok(p),
        Err(f) => Err(raw + ": "@ + path_failure_text(f)),
    }
}

/// Resolves a typed path against the working directory.
pub fn resolve_arg(cwd: &SandboxPath, raw: &str) -> (r: Result<SandboxPath, String>)
    ensures
        match r {
            Ok(p) => resolved_arg(cwd@, raw@) == Ok::<Seq<char>, Seq<char>>(p@),
            Err(m) => resolved_arg(cwd@, raw@) == Err::<Seq<char>, Seq<char>>(m@),
        },
{
    match cwd.resolve_relative(raw) {
        Ok(p) => Ok(p),
        Err(e) => {
            let mut out = chars_of(raw);
            push_str(&mut out, ": ");
            let m = e.message();
            push_str(&mut out, m.as_str());
            Err(string_from_chars(out.as_slice()))
        },
    }
}

/// What `chmod` will do: set `mode` on each target, recursively under `-R`.
pub struct ChmodRequest {
    pub mode: u32,
    pub recursive: bool,
    pub targets: Vec<String>,
}

/// `chmod [-R] MODE TARGET...`: the octal mode and the targets, or why the
/// arguments are refused.
pub fn chmod_request(args: &[Arg]) -> (r: Result<ChmodRequest, CommandResult>)
    ensures
        ({
            let av = arg_views(args@);
            let ops = operands(av);
            &&& ops.len() < 2 ==> (r matches Err(e) && e.stderr@ == "chmod: missing operand\n"@
                && e.exit_code == 1)
            &&& ops.len() >= 2 && parsed_u32(ops[0], 8) is None ==> (r matches Err(e) && e.stderr@
                == "chmod: invalid mode: '"@ + ops[0] + "' (only octal modes like 755 are supported)\n"@
                && e.exit_code == 1)
            &&& ops.len() >= 2 && parsed_u32(ops[0], 8) is Some ==> (r matches Ok(req) && req.mode
                == parsed_u32(ops[0], 8)->0 && req.recursive == flag_chars(av).contains('R')
                && string_views(req.targets@) == ops.skip(1))
        }),
{
    let ghost av = arg_views(args@);
    let (flags, ops) = short_flags(args);
    let recursive = contains_char(flags.as_slice(), 'R');
    if ops.len() < 2 {
        return Err(CommandResult::error("chmod: missing operand\n", 1));
    }
    let mode_chars = chars_of(ops[0].as_str());
    assert(ops@[0]@ == operands(av)[0]);
    match parse_u32_radix(mode_chars.as_slice(), 8) {
        None => {
            let mut msg = chars_of("chmod: invalid mode: '");
            push_str(&mut msg, ops[0].as_str());
            push_str(&mut msg, "' (only octal modes like 755 are supported)\n");
            let text = string_from_chars(msg.as_slice());
            Err(CommandResult::error(text.as_str(), 1))
        },
        Some(mode) => {
            let targets = strings_after_first(&ops);
            Ok(ChmodRequest { mode, recursive, targets })
        },
    }
}

fn strings_after_first(v: &Vec<String>) -> (r: Vec<String>)
    requires
        v@.len() >= 1,
    ensures
        string_views(r@) == string_views(v@).skip(1),
{
    let mut out: Vec<String> = Vec::new();
    let mut i: usize = 1;
    while i < v.len()
        invariant
            1 <= i <= v@.len(),
            out@.len() == i - 1,
            forall|k: int| 0 <= k < out@.len() ==> #[trigger] out@[k]@ == v@[k + 1]@,
        decreases v.len() - i,
    {
        out.push(v[i].clone());
        i = i + 1;
    }
    assert(string_views(out@) =~= string_views(v@).skip(1));
    out
}

/// The position of the first `c` in `s`, if any.
pub open spec fn first_index_of(s: Seq<char>, c: char) -> Option<int> {
    if s.contains(c) {
        Some(choose|i: int| 0 <= i < s.len() && s[i] == c && forall|j: int| 0 <= j < i ==> s[j] != c)
    } else {
        None
    }
}

/// What `chown` will do: set the owner and group that are given on each
/// target, recursively under `-R`.
pub struct ChownRequest {
    pub uid: Option<u32>,
    pub gid: Option<u32>,
    pub recursive: bool,
    pub targets: Vec<String>,
}

/// The user and group parts of an owner spec `USER[:GROUP]`, split at the
/// first colon.
pub open spec fn owner_parts(spec: Seq<char>) -> (Seq<char>, Option<Seq<char>>) {
    match first_index_of(spec, ':') {
        Some(i) => (spec.take(i), Some(spec.skip(i + 1))),
        None => (spec, None),
    }
}

fn split_owner(spec: &Vec<char>) -> (r: (Vec<char>, Option<Vec<char>>))
    ensures
        r.0@ == owner_parts(spec@).0,
        match r.1 {
            Some(g) => owner_parts(spec@).1 == Some(g@),
            None => owner_parts(spec@).1 is None,
        },
{
    let mut i: usize = 0;
    while i < spec.len() && spec[i] != ':'
        invariant
            i <= spec@.len(),
            forall|j: int| 0 <= j < i ==> spec@[j] != ':',
        decreases spec.len() - i,
    {
        i = i + 1;
    }
    let mut user: Vec<char> = Vec::new();
    let mut k: usize = 0;
    while k < i
        invariant
            k <= i <= spec@.len(),
            user@ == spec@.take(k as int),
        decreases i - k,
    {
        user.push(spec[k]);
        k = k + 1;
        assert(user@ =~= spec@.take(k as int));
    }
    if i == spec.len() {
        assert(!spec@.contains(':'));
        assert(spec@.take(i as int) =~= spec@);
        return (user, None);
    }
    assert(spec@.contains(':'));
    let ghost w = choose|w: int| 0 <= w < spec@.len() && spec@[w] == ':' && forall|j: int| 0 <= j < w ==> spec@[j] != ':';
    assert(w == i) by {
        if w < i {
            assert(spec@[w] != ':');
        }
        if w > i {
        }
    }
    let mut group: Vec<char> = Vec::new();
    let mut m: usize = i + 1;
    while m < spec.len()
        invariant
            i + 1 <= m <= spec@.len(),
            group@ == spec@.subrange(i + 1, m as int),
        decreases spec.len() - m,
    {
        group.push(spec[m]);
        m = m + 1;
        assert(group@ =~= spec@.subrange(i + 1, m as int));
    }
    assert(group@ =~= spec@.skip(i + 1));
    (user, Some(group))
}

/// What `chown` reads from an owner spec: `Ok((uid, gid))` with each part
/// absent when empty, or `Err(true)` for a bad user and `Err(false)` for a
/// bad group.
pub open spec fn owner_ids(spec: Seq<char>) -> Result<(Option<u32>, Option<u32>), bool> {
    let (u, g) = owner_parts(spec);
    if u.len() > 0 && parsed_u32(u, 10) is None {
        Err(true)
    } else if (g matches Some(gs) && gs.len() > 0 && parsed_u32(gs, 10) is None) {
        Err(false)
    } else {
        Ok((
            if u.len() == 0 { None } else { parsed_u32(u, 10) },
            match g {
                Some(gs) => if gs.len() == 0 { None } else { parsed_u32(gs, 10) },
                None => None,
            },
        ))
    }
}

/// `chown [-R] UID[:GID] TARGET...`: the numeric owner and group and the
/// targets, or why the arguments are refused.
pub fn chown_request(args: &[Arg]) -> (r: Result<ChownRequest, CommandResult>)
    ensures
        ({
            let av = arg_views(args@);
            let ops = operands(av);
            &&& ops.len() < 2 ==> (r matches Err(e) && e.stderr@ == "chown: missing operand\n"@
                && e.exit_code == 1)
            &&& ops.len() >= 2 && owner_ids(ops[0]) == Err::<(Option<u32>, Option<u32>), bool>(true)
                ==> (r matches Err(e) && e.stderr@ == "chown: invalid user: '"@ + ops[0]
                + "' (only numeric uid[:gid] is supported)\n"@ && e.exit_code == 1)
            &&& ops.len() >= 2 && owner_ids(ops[0]) == Err::<(Option<u32>, Option<u32>), bool>(false)
                ==> (r matches Err(e) && e.stderr@ == "chown: invalid group: '"@ + ops[0]
                + "' (only numeric uid[:gid] is supported)\n"@ && e.exit_code == 1)
            &&& ops.len() >= 2 && owner_ids(ops[0]) is Ok ==> (r matches Ok(req) && (req.uid,
                req.gid) == owner_ids(ops[0])->Ok_0 && req.recursive == flag_chars(av).contains('R')
                && string_views(req.targets@) == ops.skip(1))
        }),
{
    let ghost av = arg_views(args@);
    let (flags, ops) = short_flags(args);
    let recursive = contains_char(flags.as_slice(), 'R');
    if ops.len() < 2 {
        return Err(CommandResult::error("chown: missing operand\n", 1));
    }
    assert(ops@[0]@ == operands(av)[0]);
    let spec = chars_of(ops[0].as_str());
    let (user, group) = split_owner(&spec);
    let uid = if user.len() == 0 {
        None
    } else {
        match parse_u32_radix(user.as_slice(), 10) {
            Some(v) => Some(v),
            None => {
                let mut msg = chars_of("chown: invalid user: '");
                push_str(&mut msg, ops[0].as_str());
                push_str(&mut msg, "' (only numeric uid[:gid] is supported)\n");
                let text = string_from_chars(msg.as_slice());
                return Err(CommandResult::error(text.as_str(), 1));
            },
        }
    };
    let gid = match group {
        None => None,
        Some(g) => {
            if g.len() == 0 {
                None
            } else {
                match parse_u32_radix(g.as_slice(), 10) {
                    Some(v) => Some(v),
                    None => {
                        let mut msg = chars_of("chown: invalid group: '");
                        push_str(&mut msg, ops[0].as_str());
                        push_str(&mut msg, "' (only numeric uid[:gid] is supported)\n");
                        let text = string_from_chars(msg.as_slice());
                        return Err(CommandResult::error(text.as_str(), 1));
                    },
                }
            }
        },
    };
    let targets = strings_after_first(&ops);
    Ok(ChownRequest { uid, gid, recursive, targets })
}

/// How `cp` and `mv` read their operands: every one but the last is a
/// source, the last (resolved) is the destination, and there must be at
/// least two.
pub open spec fn sources_and_dest_spec(cwd: Seq<char>, ops: Seq<Seq<char>>) -> Result<
    (Seq<Seq<char>>, Seq<char>, bool),
    Seq<char>,
> {
    if ops.len() < 2 {
        Err("missing file operand"@)
    } else {
        match resolved_arg(cwd, ops.last()) {
            Ok(d) => Ok((ops.drop_last(), d, ops.len() - 1 > 1)),
            Err(m) => Err(m),
        }
    }
}

/// Splits `cp`/`mv` operands into the sources and the resolved
/// destination, and whether there are several sources.
pub fn resolve_sources_and_dest(cwd: &SandboxPath, operands: &Vec<String>) -> (r: Result<
    (Vec<String>, SandboxPath, bool),
    String,
>)
    ensures
        match r {
            Ok((srcs, dest, multi)) => sources_and_dest_spec(cwd@, string_views(operands@)) == Ok::<
                (Seq<Seq<char>>, Seq<char>, bool),
                Seq<char>,
            >((string_views(srcs@), dest@, multi)),
            Err(m) => sources_and_dest_spec(cwd@, string_views(operands@)) == Err::<
                (Seq<Seq<char>>, Seq<char>, bool),
                Seq<char>,
            >(m@),
        },
{
    if operands.len() < 2 {
        return Err("missing file operand".to_string());
    }
    let last = operands.len() - 1;
    assert(string_views(operands@).last() == operands@[last as int]@);
    let dest = resolve_arg(cwd, operands[last].as_str())?;
    let mut sources: Vec<String> = Vec::new();
    let mut i: usize = 0;
    while i < last
        invariant
            last == operands@.len() - 1,
            i <= last,
            sources@.len() == i,
            forall|k: int| 0 <= k < i ==> #[trigger] sources@[k]@ == operands@[k]@,
        decreases last - i,
    {
        sources.push(operands[i].clone());
        i = i + 1;
    }
    assert(string_views(sources@) =~= string_views(operands@).drop_last());
    let multi = sources.len() > 1;
    Ok((sources, dest, multi))
}

/// Where a source lands: inside the destination directory under its own
/// name, or at the destination itself when that is no directory.
pub open spec fn landing_spec(dest: Seq<char>, dest_is_dir: bool, src: Seq<char>, root_message: Seq<char>) -> Result<Seq<char>, Seq<char>> {
    if !dest_is_dir {
        Ok(dest)
    } else {
        match file_name_of(src) {
            None => Err(root_message),
            Some(name) => match join_component(dest, name) {
                Ok(p) => Ok(p),
                Err(f) => Err(path_failure_text(f)),
            },
        }
    }
}

/// Where `src` lands when copied or moved to `dest`; the root itself
/// cannot be copied or moved into a directory (`root_message` says so).
pub fn landing_path(dest: &SandboxPath, dest_is_dir: bool, src: &SandboxPath, root_message: &str) -> (r:
    Result<SandboxPath, String>)
    ensures
        match r {
            Ok(p) => landing_spec(dest@, dest_is_dir, src@, root_message@) == Ok::<Seq<char>, Seq<char>>(p@),
            Err(m) => landing_spec(dest@, dest_is_dir, src@, root_message@) == Err::<Seq<char>, Seq<char>>(m@),
        },
{
    if !dest_is_dir {
        return Ok(dest.clone());
    }
    match src.file_name() {
        None => Err(root_message.to_string()),
        Some(name) => match dest.join(name.as_str()) {
            Ok(p) => Ok(p),
            Err(e) => Err(e.message()),
        },
    }
}

/// What `find`'s arguments ask for: where to start, a name pattern and a
/// file type letter.
pub struct FindOptions {
    pub path: Seq<char>,
    pub path_taken: bool,
    pub name: Option<Seq<char>>,
    pub kind: Option<char>,
}

/// `find`'s arguments read from position `i` on: `-name P` and `-type T`
/// take the next argument (a missing one is ignored), the first other
/// argument not starting with `-` is the start path, the rest is ignored.
pub open spec fn find_options_from(items: Seq<Seq<char>>, i: int, st: FindOptions) -> FindOptions
    decreases items.len() - i,
{
    if i < 0 || i >= items.len() {
        st
    } else if items[i] == "-name"@ {
        if i + 1 < items.len() {
            find_options_from(items, i + 2, FindOptions { name: Some(items[i + 1]), ..st })
        } else {
            st
        }
    } else if items[i] == "-type"@ {
        if i + 1 < items.len() {
            find_options_from(
                items,
                i + 2,
                FindOptions {
                    kind: if items[i + 1].len() > 0 {
                        Some(items[i + 1][0])
                    } else {
                        None
                    },
                    ..st
                },
            )
        } else {
            st
        }
    } else if !st.path_taken && !(items[i].len() > 0 && items[i][0] == '-') {
        find_options_from(items, i + 1, FindOptions { path: items[i], path_taken: true, ..st })
    } else {
        find_options_from(items, i + 1, st)
    }
}

/// What `find` reads from its arguments; the start defaults to `.`.
pub open spec fn find_options(items: Seq<Seq<char>>) -> FindOptions {
    find_options_from(items, 0, FindOptions { path: "."@, path_taken: false, name: None, kind: None })
}

/// A `find` run: the start path as typed, and the filters.
pub struct FindRequest {
    pub path: String,
    pub name_pattern: Option<String>,
    pub type_filter: Option<char>,
}

/// Reads `find [PATH] [-name PATTERN] [-type f|d]`.
pub fn find_request(args: &[Arg]) -> (r: FindRequest)
    ensures
        ({
            let o = find_options(arg_views(args@));
            &&& r.path@ == o.path
            &&& match r.name_pattern {
                Some(p) => o.name == Some(p@),
                None => o.name is None,
            }
            &&& r.type_filter == o.kind
        }),
{
    let ghost av = arg_views(args@);
    let mut path = "."; 
    let mut path_taken = false;
    let mut name: Option<String> = None;
    let mut kind: Option<char> = None;
    let mut i: usize = 0;
    while i < args.len()
        invariant
            av == arg_views(args@),
            i <= args@.len(),
            find_options(av) == find_options_from(
                av,
                i as int,
                FindOptions {
                    path: path@,
                    path_taken,
                    name: match name {
                        Some(n) => Some(n@),
                        None => None,
                    },
                    kind,
                },
            ),
        decreases args@.len() - i,
    {
        let item = args[i].as_str();
        assert(item@ == av[i as int]);
        if str_eq(item, "-name") {
            if i + 1 < args.len() {
                assert(args[i + 1].0@ == av[i + 1]);
                name = Some(args[i + 1].0.clone());
                i = i + 2;
            } else {
                i = i + 1;
            }
        } else if str_eq(item, "-type") {
            if i + 1 < args.len() {
                let t = chars_of(args[i + 1].as_str());
                assert(t@ == av[i + 1]);
                kind = if t.len() > 0 {
                    Some(t[0])
                } else {
                    None
                };
                i = i + 2;
            } else {
                i = i + 1;
            }
        } else {
            let cs = chars_of(item);
            if !path_taken && !(cs.len() > 0 && cs[0] == '-') {
                path = item;
                path_taken = true;
            }
            i = i + 1;
        }
    }
    proof {
        reveal_strlit(".");
    }
    FindRequest { path: path.to_string(), name_pattern: name, type_filter: kind }
}

/// Whether `find` lists an entry named `leaf` of kind `kind`: its name
/// matches the pattern (if any), and its kind is the one asked for (`f`
/// for regular files, `d` for directories, any other letter for all).
pub open spec fn find_selects(pattern: Option<Seq<char>>, kind_filter: Option<char>, leaf: Seq<char>, kind: FileKind) -> bool {
    &&& match pattern {
        Some(p) => glob_spec(p, leaf),
        None => true,
    }
    &&& match kind_filter {
        Some('f') => kind == FileKind::Regular,
        Some('d') => kind == FileKind::Directory,
        _ => true,
    }
}

/// `find -type d` lists directories and nothing else, and every directory
/// when no name is asked for; `-type f` likewise lists exactly the regular
/// files; a type filter only narrows what the name alone selects.
pub proof fn lemma_find_type_filter(pattern: Option<Seq<char>>, leaf: Seq<char>, kind: FileKind)
    ensures
        find_selects(pattern, Some('d'), leaf, kind) ==> kind == FileKind::Directory,
        find_selects(pattern, Some('f'), leaf, kind) ==> kind == FileKind::Regular,
        find_selects(None, Some('d'), leaf, FileKind::Directory),
        find_selects(None, Some('f'), leaf, FileKind::Regular),
        find_selects(pattern, Some('d'), leaf, kind) ==> find_selects(pattern, None, leaf, kind),
        find_selects(pattern, Some('f'), leaf, kind) ==> find_selects(pattern, None, leaf, kind),
        find_selects(pattern, None, leaf, FileKind::Directory) ==> find_selects(pattern, Some('d'), leaf, FileKind::Directory),
        find_selects(pattern, None, leaf, FileKind::Regular) ==> find_selects(pattern, Some('f'), leaf, FileKind::Regular),
{
}

/// Whether `find` lists an entry named `leaf` of kind `kind`.
pub fn find_matches(req: &FindRequest, leaf: &str, kind: FileKind) -> (b: bool)
    ensures
        b == find_selects(
            match req.name_pattern {
                Some(p) => Some(p@),
                None => None,
            },
            req.type_filter,
            leaf@,
            kind,
        ),
{
    let name_ok = match &req.name_pattern {
        Some(p) => glob_match(p.as_str(), leaf),
        None => true,
    };
    let kind_ok = match req.type_filter {
        Some('f') => kind == FileKind::Regular,
        Some('d') => kind == FileKind::Directory,
        _ => true,
    };
    name_ok && kind_ok
}

/// What `truncate`'s arguments give: the size (`-s N` or `-sN`, the last
/// one wins, an unreadable one clears it) and the non-flag targets.
pub open spec fn truncate_scan(items: Seq<Seq<char>>, i: int, size: Option<u64>, targets: Seq<Seq<char>>) -> (Option<u64>, Seq<Seq<char>>)
    decreases items.len() - i,
{
    if i < 0 || i >= items.len() {
        (size, targets)
    } else if items[i] == "-s"@ {
        if i + 1 < items.len() {
            truncate_scan(items, i + 2, parsed_u64(items[i + 1]), targets)
        } else {
            (size, targets)
        }
    } else if has_prefix(items[i], "-s"@) {
        if items[i].len() > 2 {
            truncate_scan(items, i + 1, parsed_u64(items[i].skip(2)), targets)
        } else {
            truncate_scan(items, i + 1, size, targets)
        }
    } else if !(items[i].len() > 0 && items[i][0] == '-') {
        truncate_scan(items, i + 1, size, targets.push(items[i]))
    } else {
        truncate_scan(items, i + 1, size, targets)
    }
}

/// What `truncate` will do: set each target's length to `size`.
pub struct TruncateRequest {
    pub size: u64,
    pub targets: Vec<String>,
}

/// Reads `truncate -s SIZE FILE...`.
pub fn truncate_request(args: &[Arg]) -> (r: Result<TruncateRequest, CommandResult>)
    ensures
        ({
            let (size, targets) = truncate_scan(arg_views(args@), 0, None, Seq::empty());
            &&& size is None ==> (r matches Err(e) && e.stderr@
                == "truncate: you must specify a size with -s\n"@ && e.exit_code == 1)
            &&& size is Some && targets.len() == 0 ==> (r matches Err(e) && e.stderr@
                == "truncate: missing file operand\n"@ && e.exit_code == 1)
            &&& size is Some && targets.len() > 0 ==> (r matches Ok(req) && Some(req.size) == size
                && string_views(req.targets@) == targets)
        }),
{
    let ghost av = arg_views(args@);
    let dash_s = chars_of("-s");
    proof {
        reveal_strlit("-s");
    }
    let mut size: Option<u64> = None;
    let mut targets: Vec<String> = Vec::new();
    let mut i: usize = 0;
    assert(string_views(targets@) =~= Seq::<Seq<char>>::empty());
    while i < args.len()
        invariant
            av == arg_views(args@),
            dash_s@ == "-s"@,
            i <= args@.len(),
            truncate_scan(av, 0, None, Seq::empty()) == truncate_scan(av, i as int, size, string_views(targets@)),
        decreases args@.len() - i,
    {
        let item = chars_of(args[i].as_str());
        assert(item@ == av[i as int]);
        if str_eq(args[i].as_str(), "-s") {
            if i + 1 < args.len() {
                let raw = chars_of(args[i + 1].as_str());
                assert(raw@ == av[i + 1]);
                size = parse_u64(raw.as_slice());
                i = i + 2;
            } else {
                i = i + 1;
            }
        } else if starts_with(item.as_slice(), dash_s.as_slice()) {
            if item.len() > 2 {
                let mut rest: Vec<char> = Vec::new();
                let mut k: usize = 2;
                while k < item.len()
                    invariant
                        2 <= k <= item@.len(),
                        rest@ == item@.subrange(2, k as int),
                    decreases item.len() - k,
                {
                    rest.push(item[k]);
                    k = k + 1;
                    assert(rest@ =~= item@.subrange(2, k as int));
                }
                assert(rest@ =~= item@.skip(2));
                size = parse_u64(rest.as_slice());
            }
            i = i + 1;
        } else {
            if !(item.len() > 0 && item[0] == '-') {
                let ghost before = string_views(targets@);
                targets.push(args[i].0.clone());
                assert(string_views(targets@) =~= before.push(av[i as int]));
            }
            i = i + 1;
        }
    }
    match size {
        None => Err(CommandResult::error("truncate: you must specify a size with -s\n", 1)),
        Some(n) => {
            if targets.len() == 0 {
                Err(CommandResult::error("truncate: missing file operand\n", 1))
            } else {
                Ok(TruncateRequest { size: n, targets })
            }
        },
    }
}

/// What `shred` will do: overwrite each target with zeros, then remove it
/// under `-u`.
pub struct ShredRequest {
    pub unlink: bool,
    pub targets: Vec<String>,
}

/// Reads `shred [-u] FILE...`.
pub fn shred_request(args: &[Arg]) -> (r: Result<ShredRequest, CommandResult>)
    ensures
        ({
            let av = arg_views(args@);
            &&& operands(av).len() == 0 ==> (r matches Err(e) && e.stderr@
                == "shred: missing file operand\n"@ && e.exit_code == 1)
            &&& operands(av).len() > 0 ==> (r matches Ok(req) && req.unlink == flag_chars(av).contains('u')
                && string_views(req.targets@) == operands(av))
        }),
{
    let (flags, targets) = short_flags(args);
    let unlink = contains_char(flags.as_slice(), 'u');
    if targets.len() == 0 {
        return Err(CommandResult::error("shred: missing file operand\n", 1));
    }
    Ok(ShredRequest { unlink, targets })
}

/// `du`'s targets: its operands, or `.` when there are none.
pub open spec fn du_targets_spec(av: Seq<Seq<char>>) -> Seq<Seq<char>> {
    if operands(av).len() == 0 {
        seq!["."@]
    } else {
        operands(av)
    }
}

/// The targets `du` measures.
pub fn du_targets(args: &[Arg]) -> (r: Vec<String>)
    ensures
        string_views(r@) == du_targets_spec(arg_views(args@)),
{
    let (_flags, ops) = short_flags(args);
    if ops.len() == 0 {
        let mut v: Vec<String> = Vec::new();
        v.push(".".to_string());
        assert(string_views(v@) =~= seq!["."@]);
        return v;
    }
    ops
}

/// `du`'s line for one target: the total in bytes, a tab, and the target
/// as typed.
pub fn du_line(total: u64, raw: &str) -> (s: String)
    ensures
        s@ == decimal(total as nat) + "\t"@ + raw@ + "\n"@,
{
    let mut out = decimal_u64(total);
    push_str(&mut out, "\t");
    push_str(&mut out, raw);
    push_str(&mut out, "\n");
    string_from_chars(out.as_slice())
}

/// What `df` prints for one simulated filesystem using `used` bytes.
pub fn df_output(used: u64) -> (r: CommandResult)
    ensures
        r.stdout@ == "Filesystem       1K-blocks  Used  Available  Use%  Mounted on\nsafeshell-sim            -  "@
            + decimal(used as nat) + "          -     -  /\n"@,
        r.stderr@.len() == 0,
        r.exit_code == 0,
{
    let mut out = chars_of("Filesystem       1K-blocks  Used  Available  Use%  Mounted on\nsafeshell-sim            -  ");
    let u = decimal_u64(used);
    push_all(&mut out, u.as_slice());
    push_str(&mut out, "          -     -  /\n");
    let text = string_from_chars(out.as_slice());
    CommandResult::ok(text.as_str())
}


/// How deep the directory walks of `cp -r`, `chmod -R`, `chown -R`, `find`
/// and `du` go. A path nested this deeply is far longer than the kernel's
/// path limit (4096 bytes), so no walk over real layers reaches it.
pub const MAX_WALK_DEPTH: usize = 4096;

/// The error a walk reports past `MAX_WALK_DEPTH`.
fn too_deep() -> (e: FsError)
    ensures
        !e.not_found,
        e.message@ == "directory tree nested too deeply"@,
{
    FsError::invalid("directory tree nested too deeply")
}

/// The refusal `rmdir` gives an operand by itself, before asking the view:
/// one that does not resolve, or the root.
pub open spec fn rmdir_own_refusal(cwd: Seq<char>, raw: Seq<char>) -> Option<Seq<char>> {
    match resolved_arg(cwd, raw) {
        Err(m) => Some("rmdir: "@ + m),
        Ok(p) => if p.len() == 0 {
            Some("rmdir: cannot remove the sandbox root"@)
        } else {
            None
        },
    }
}

/// The start of the line for a directory that is not removed.
pub open spec fn rmdir_failure_prefix(raw: Seq<char>) -> Seq<char> {
    "rmdir: failed to remove '"@ + raw + "': "@
}

/// The failure line of `rmdir` for `raw`: the prefix, then `tail`.
fn rmdir_line(raw: &str, tail: &str) -> (v: Vec<char>)
    ensures
        v@ == rmdir_failure_prefix(raw@) + tail@,
{
    let mut line = chars_of("rmdir: failed to remove '");
    push_str(&mut line, raw);
    push_str(&mut line, "': ");
    push_str(&mut line, tail);
    proof {
        reveal_strlit("rmdir: failed to remove '");
        reveal_strlit("': ");
    }
    line
}

/// `rmdir DIR...`: removes each directory named that is empty; each one
/// that is missing, not a directory, not empty or not removable is
/// reported and makes the exit code 1.
pub fn cmd_rmdir<R: LayeredView>(session: &TerminalSession, resolver: &R, args: &[Arg]) -> (r: CommandResult)
    ensures
        args@.len() == 0 ==> r.stdout@.len() == 0 && r.stderr@ == "rmdir: missing operand\n"@
            && r.exit_code == 1,
        args@.len() > 0 ==> r.stdout@.len() == 0 && failure_shown(r),
        args@.len() > 0 ==> per_operand_stderr(
            r.stderr@,
            Seq::new(args@.len(), |i: int| rmdir_own_refusal(session.cwd_view(), args@[i].0@)),
            Seq::new(args@.len(), |i: int| rmdir_failure_prefix(args@[i].0@)),
        ),
        (exists|i: int| 0 <= i < args@.len() && !names_below_root(session.cwd_view(), #[trigger] args@[i].0@))
            ==> r.exit_code == 1,
{
    if args.len() == 0 {
        return CommandResult::error("rmdir: missing operand\n", 1);
    }
    let ghost own = Seq::new(args@.len(), |i: int| rmdir_own_refusal(session.cwd_view(), args@[i].0@));
    let ghost prefixes = Seq::new(args@.len(), |i: int| rmdir_failure_prefix(args@[i].0@));
    let mut stderr: Vec<char> = Vec::new();
    let mut exit_code: i32 = 0;
    let ghost mut segs: Seq<Seq<char>> = Seq::empty();
    let mut i: usize = 0;
    while i < args.len()
        invariant
            i <= args@.len(),
            own == Seq::new(args@.len(), |i: int| rmdir_own_refusal(session.cwd_view(), args@[i].0@)),
            prefixes == Seq::new(args@.len(), |i: int| rmdir_failure_prefix(args@[i].0@)),
            (exit_code == 0 && stderr@.len() == 0) || (exit_code == 1 && stderr@.len() > 0),
            forall|k: int| 0 <= k < i && !names_below_root(session.cwd_view(), #[trigger] args@[k].0@)
                ==> exit_code == 1,
            segs.len() == i,
            stderr@ == flatten(segs),
            segments_fit(segs, own, prefixes, i as int),
        decreases args.len() - i,
    {
        let raw = args[i].as_str();
        let ghost start = stderr@;
        assert(args@[i as int].0@ == raw@);
        let failure: Option<Vec<char>> = match resolve_arg(session.cwd(), raw) {
            Err(e) => {
                let mut line = chars_of("rmdir: ");
                push_str(&mut line, e.as_str());
                note_failure(&mut stderr, &mut exit_code, line.as_slice());
                assert(stderr@.skip(start.len() as int) =~= line@ + seq!['\n']);
                None
            },
            Ok(target) => match target.place() {
                None => {
                    let line = chars_of("rmdir: cannot remove the sandbox root");
                    note_failure(&mut stderr, &mut exit_code, line.as_slice());
                    assert(stderr@.skip(start.len() as int) =~= line@ + seq!['\n']);
                    None
                },
                Some((parent, name)) => {
                    match resolver.stat(target.as_str()) {
                        Ok(info) => {
                            if info.kind != FileKind::Directory {
                                Some(rmdir_line(raw, "Not a directory"))
                            } else {
                                match resolver.read_dir(target.as_str()) {
                                    Ok(entries) => {
                                        if entries.len() > 0 {
                                            Some(rmdir_line(raw, "Directory not empty"))
                                        } else {
                                            match resolver.remove(parent.as_str(), name.as_str(), true) {
                                                Err(e) => Some(rmdir_line(raw, e.message.as_str())),
                                                Ok(()) => None,
                                            }
                                        }
                                    },
                                    Err(e) => Some(rmdir_line(raw, e.message.as_str())),
                                }
                            }
                        },
                        Err(e) => Some(rmdir_line(raw, e.message.as_str())),
                    }
                },
            },
        };
        match failure {
            Some(line) => {
                proof {
                    assert(line@.subrange(0, rmdir_failure_prefix(raw@).len() as int) =~= rmdir_failure_prefix(raw@));
                    lemma_host_line(rmdir_failure_prefix(raw@), line@);
                }
                note_failure(&mut stderr, &mut exit_code, line.as_slice());
                assert(stderr@.skip(start.len() as int) =~= line@ + seq!['\n']);
            },
            None => {
                proof {
                    if stderr@.len() == start.len() {
                        assert(stderr@.skip(start.len() as int) =~= Seq::<char>::empty());
                    }
                }
            },
        }
        proof {
            assert(stderr@.subrange(0, start.len() as int) =~= start);
            lemma_segment_step(segs, start, stderr@, own, prefixes);
            segs = segs.push(stderr@.skip(start.len() as int));
        }
        i = i + 1;
    }
    let text = string_from_chars(stderr.as_slice());
    CommandResult { stdout: String::new(), stderr: text, exit_code }
}

/// Whether the view reports `path` as a directory (an error counts as no).
fn is_directory<R: LayeredView>(resolver: &R, path: &SandboxPath) -> bool {
    match resolver.stat(path.as_str()) {
        Ok(info) => info.kind == FileKind::Directory,
        Err(_) => false,
    }
}

/// Copies `src` to `dest`: a file's bytes, or (under `recursive`) a
/// directory with everything in it, creating `dest` when it is not a
/// directory yet. A directory without `recursive` is refused.
fn copy_into<R: LayeredView>(resolver: &R, src: &SandboxPath, dest: &SandboxPath, recursive: bool, depth: usize) -> (r: Result<(), FsError>)
    ensures
        depth == 0 ==> (r matches Err(e) && !e.not_found && e.message@ == "directory tree nested too deeply"@),
    decreases depth,
{
    if depth == 0 {
        return Err(too_deep());
    }
    let info = resolver.stat(src.as_str())?;
    if info.kind == FileKind::Directory {
        if !recursive {
            return Err(FsError::invalid("omitting directory (not -r)"));
        }
        if !is_directory(resolver, dest) {
            let (parent, name) = match dest.place() {
                Some(pn) => pn,
                None => return Err(FsError::invalid("cannot copy onto the sandbox root")),
            };
            resolver.mkdir(parent.as_str(), name.as_str())?;
        }
        let entries = resolver.read_dir(src.as_str())?;
        let mut i: usize = 0;
        while i < entries.len()
            invariant
                i <= entries@.len(),
                depth > 0,
            decreases entries.len() - i,
        {
            let child_src = match src.join(entries[i].as_str()) {
                Ok(p) => p,
                Err(e) => return Err(FsError { not_found: false, message: e.message() }),
            };
            let child_dest = match dest.join(entries[i].as_str()) {
                Ok(p) => p,
                Err(e) => return Err(FsError { not_found: false, message: e.message() }),
            };
            copy_into(resolver, &child_src, &child_dest, recursive, depth - 1)?;
            i = i + 1;
        }
        Ok(())
    } else {
        let contents = resolver.read_file(src.as_str())?;
        resolver.write_file(dest.as_str(), contents.as_slice())
    }
}

/// The refusal of several sources onto something that is not a directory.
fn not_a_directory_target(tool: &str, dest: &SandboxPath) -> (r: CommandResult)
    ensures
        r.stdout@.len() == 0,
        r.stderr@ == tool@ + ": target '"@ + dest@ + "' is not a directory\n"@,
        r.exit_code == 1,
{
    let mut msg = chars_of(tool);
    push_str(&mut msg, ": target '");
    push_str(&mut msg, dest.as_str());
    push_str(&mut msg, "' is not a directory\n");
    let text = string_from_chars(msg.as_slice());
    CommandResult::error(text.as_str(), 1)
}

/// The refusal `cp` gives a source by itself, before asking the view: one
/// that does not resolve, or that lands nowhere.
pub open spec fn cp_own_refusal(cwd: Seq<char>, dest: Seq<char>, dest_is_dir: bool, raw: Seq<char>) -> Option<Seq<char>> {
    match resolved_arg(cwd, raw) {
        Err(m) => Some("cp: "@ + m),
        Ok(src) => match landing_spec(dest, dest_is_dir, src, "cannot copy the sandbox root"@) {
            Err(m) => Some("cp: "@ + m),
            Ok(_) => None,
        },
    }
}

/// The start of the line for a source the view would not copy to where it
/// lands.
pub open spec fn cp_failure_prefix(cwd: Seq<char>, dest: Seq<char>, dest_is_dir: bool, raw: Seq<char>) -> Seq<char> {
    match resolved_arg(cwd, raw) {
        Ok(src) => match landing_spec(dest, dest_is_dir, src, "cannot copy the sandbox root"@) {
            Ok(p) => "cp: cannot copy '"@ + raw + "' to '"@ + p + "': "@,
            Err(_) => Seq::empty(),
        },
        Err(_) => Seq::empty(),
    }
}

/// What `cp` shows once its operands resolve, given what the view said
/// of the destination: several sources onto something that is not a
/// directory are refused as a whole; otherwise each source gets its own
/// refusal or the view's answer.
pub open spec fn cp_outcome(
    cwd: Seq<char>,
    srcs: Seq<Seq<char>>,
    d: Seq<char>,
    multi: bool,
    dest_is_dir: bool,
    r: CommandResult,
) -> bool {
    &&& multi && !dest_is_dir ==> r.stderr@ == "cp: target '"@ + d + "' is not a directory\n"@ && r.exit_code == 1
    &&& !(multi && !dest_is_dir) ==> per_operand_stderr(
        r.stderr@,
        Seq::new(srcs.len(), |i: int| cp_own_refusal(cwd, d, dest_is_dir, srcs[i])),
        Seq::new(srcs.len(), |i: int| cp_failure_prefix(cwd, d, dest_is_dir, srcs[i])),
    )
}

/// `cp [-rR] SOURCE... DEST`: copies each source to the destination, or
/// into it when it is a directory (which several sources need); each
/// source that cannot be copied is reported and makes the exit code 1.
pub fn cmd_cp<R: LayeredView>(session: &TerminalSession, resolver: &R, args: &[Arg]) -> (r: CommandResult)
    ensures
        r.stdout@.len() == 0,
        failure_shown(r),
        sources_and_dest_spec(session.cwd_view(), operands(arg_views(args@))) matches Err(m) ==> r.stderr@
            == "cp: "@ + m + "\n"@ && r.exit_code == 1,
        sources_and_dest_spec(session.cwd_view(), operands(arg_views(args@))) matches Ok((srcs, d, multi))
            ==> (cp_outcome(session.cwd_view(), srcs, d, multi, true, r) || cp_outcome(
            session.cwd_view(),
            srcs,
            d,
            multi,
            false,
            r,
        )),
{
    let (flags, ops) = short_flags(args);
    let recursive = contains_char(flags.as_slice(), 'r') || contains_char(flags.as_slice(), 'R');
    let (sources, dest, multi) = match resolve_sources_and_dest(session.cwd(), &ops) {
        Ok(v) => v,
        Err(e) => {
            let mut msg = chars_of("cp: ");
            push_str(&mut msg, e.as_str());
            push_str(&mut msg, "\n");
            proof {
                reveal_strlit("\n");
            }
            let text = string_from_chars(msg.as_slice());
            return CommandResult::error(text.as_str(), 1);
        },
    };
    let dest_is_dir = is_directory(resolver, &dest);
    if multi && !dest_is_dir {
        let r = not_a_directory_target("cp", &dest);
        proof {
            reveal_strlit("cp");
            reveal_strlit("cp: target '");
            reveal_strlit(": target '");
            assert(r.stderr@ =~= "cp: target '"@ + dest@ + "' is not a directory\n"@);
        }
        return r;
    }
    let ghost srcs = string_views(sources@);
    let ghost own = Seq::new(srcs.len(), |i: int| cp_own_refusal(session.cwd_view(), dest@, dest_is_dir, srcs[i]));
    let ghost prefixes = Seq::new(srcs.len(), |i: int| cp_failure_prefix(session.cwd_view(), dest@, dest_is_dir, srcs[i]));
    let mut stderr: Vec<char> = Vec::new();
    let mut exit_code: i32 = 0;
    let ghost mut segs: Seq<Seq<char>> = Seq::empty();
    let mut i: usize = 0;
    while i < sources.len()
        invariant
            i <= sources@.len(),
            srcs == string_views(sources@),
            own == Seq::new(srcs.len(), |i: int| cp_own_refusal(session.cwd_view(), dest@, dest_is_dir, srcs[i])),
            prefixes == Seq::new(srcs.len(), |i: int| cp_failure_prefix(session.cwd_view(), dest@, dest_is_dir, srcs[i])),
            (exit_code == 0 && stderr@.len() == 0) || (exit_code == 1 && stderr@.len() > 0),
            segs.len() == i,
            stderr@ == flatten(segs),
            segments_fit(segs, own, prefixes, i as int),
        decreases sources.len() - i,
    {
        let raw = sources[i].as_str();
        let ghost start = stderr@;
        assert(srcs[i as int] == raw@);
        match resolve_arg(session.cwd(), raw) {
            Err(e) => {
                let mut line = chars_of("cp: ");
                push_str(&mut line, e.as_str());
                note_failure(&mut stderr, &mut exit_code, line.as_slice());
                assert(stderr@.skip(start.len() as int) =~= line@ + seq!['\n']);
            },
            Ok(src) => match landing_path(&dest, dest_is_dir, &src, "cannot copy the sandbox root") {
                Err(m) => {
                    let mut line = chars_of("cp: ");
                    push_str(&mut line, m.as_str());
                    note_failure(&mut stderr, &mut exit_code, line.as_slice());
                    assert(stderr@.skip(start.len() as int) =~= line@ + seq!['\n']);
                },
                Ok(final_dest) => {
                    if let Err(e) = copy_into(resolver, &src, &final_dest, recursive, MAX_WALK_DEPTH) {
                        let mut line = chars_of("cp: cannot copy '");
                        push_str(&mut line, raw);
                        push_str(&mut line, "' to '");
                        push_str(&mut line, final_dest.as_str());
                        push_str(&mut line, "': ");
                        let ghost pre = line@;
                        push_str(&mut line, e.message.as_str());
                        proof {
                            assert(pre == prefixes[i as int]);
                            assert(line@.subrange(0, pre.len() as int) =~= pre);
                            lemma_host_line(pre, line@);
                        }
                        note_failure(&mut stderr, &mut exit_code, line.as_slice());
                        assert(stderr@.skip(start.len() as int) =~= line@ + seq!['\n']);
                    } else {
                        assert(stderr@.skip(start.len() as int) =~= Seq::<char>::empty());
                    }
                },
            },
        }
        proof {
            assert(stderr@.subrange(0, start.len() as int) =~= start);
            lemma_segment_step(segs, start, stderr@, own, prefixes);
            segs = segs.push(stderr@.skip(start.len() as int));
        }
        i = i + 1;
    }
    let text = string_from_chars(stderr.as_slice());
    CommandResult { stdout: String::new(), stderr: text, exit_code }
}

/// Moves `src` to `dest`: copies it there (directories with everything in
/// them), then removes the source.
fn move_one<R: LayeredView>(resolver: &R, src: &SandboxPath, dest: &SandboxPath) -> (r: Result<(), FsError>)
    ensures
        file_name_of(src@) is None ==> r is Err,
{
    let info = resolver.stat(src.as_str())?;
    copy_into(resolver, src, dest, true, MAX_WALK_DEPTH)?;
    let (parent, name) = match src.place() {
        Some(pn) => pn,
        None => return Err(FsError::invalid("cannot move the sandbox root")),
    };
    resolver.remove(parent.as_str(), name.as_str(), info.kind == FileKind::Directory)
}

/// The refusal `mv` gives a source by itself: one that does not resolve,
/// or the root moved into a directory (`dest_is_dir` is what the view said
/// of the destination).
pub open spec fn mv_own_refusal(cwd: Seq<char>, dest: Seq<char>, dest_is_dir: bool, raw: Seq<char>) -> Option<Seq<char>> {
    match resolved_arg(cwd, raw) {
        Err(m) => Some("mv: "@ + m),
        Ok(src) => match landing_spec(dest, dest_is_dir, src, "cannot move the sandbox root"@) {
            Err(m) => Some("mv: "@ + m),
            Ok(_) => None,
        },
    }
}

/// The start of the line for a source the view would not move to where it
/// lands.
pub open spec fn mv_failure_prefix(cwd: Seq<char>, dest: Seq<char>, dest_is_dir: bool, raw: Seq<char>) -> Seq<char> {
    match resolved_arg(cwd, raw) {
        Ok(src) => match landing_spec(dest, dest_is_dir, src, "cannot move the sandbox root"@) {
            Ok(p) => "mv: cannot move '"@ + raw + "' to '"@ + p + "': "@,
            Err(_) => Seq::empty(),
        },
        Err(_) => Seq::empty(),
    }
}

/// What `mv` shows once its operands resolve, given what the view said
/// of the destination: several sources onto something that is not a
/// directory are refused as a whole; otherwise each source gets its own
/// refusal or the view's answer.
pub open spec fn mv_outcome(
    cwd: Seq<char>,
    srcs: Seq<Seq<char>>,
    d: Seq<char>,
    multi: bool,
    dest_is_dir: bool,
    r: CommandResult,
) -> bool {
    &&& multi && !dest_is_dir ==> r.stderr@ == "mv: target '"@ + d + "' is not a directory\n"@ && r.exit_code == 1
    &&& !(multi && !dest_is_dir) ==> per_operand_stderr(
        r.stderr@,
        Seq::new(srcs.len(), |i: int| mv_own_refusal(cwd, d, dest_is_dir, srcs[i])),
        Seq::new(srcs.len(), |i: int| mv_failure_prefix(cwd, d, dest_is_dir, srcs[i])),
    )
}

/// `mv SOURCE... DEST`: moves each source to the destination, or into it
/// when it is a directory (which several sources need); each source that
/// cannot be moved is reported and makes the exit code 1.
pub fn cmd_mv<R: LayeredView>(session: &TerminalSession, resolver: &R, args: &[Arg]) -> (r: CommandResult)
    ensures
        r.stdout@.len() == 0,
        failure_shown(r),
        sources_and_dest_spec(session.cwd_view(), arg_views(args@)) matches Err(m) ==> r.stderr@
            == "mv: "@ + m + "\n"@ && r.exit_code == 1,
        sources_and_dest_spec(session.cwd_view(), arg_views(args@)) matches Ok((srcs, d, multi)) ==> (
        mv_outcome(session.cwd_view(), srcs, d, multi, true, r) || mv_outcome(
            session.cwd_view(),
            srcs,
            d,
            multi,
            false,
            r,
        )),
{
    let mut ops: Vec<String> = Vec::new();
    let mut k: usize = 0;
    while k < args.len()
        invariant
            k <= args@.len(),
            ops@.len() == k,
            forall|j: int| 0 <= j < k ==> #[trigger] ops@[j]@ == args@[j].0@,
        decreases args.len() - k,
    {
        ops.push(args[k].0.clone());
        k = k + 1;
    }
    assert(string_views(ops@) =~= arg_views(args@));
    let (sources, dest, multi) = match resolve_sources_and_dest(session.cwd(), &ops) {
        Ok(v) => v,
        Err(e) => {
            let mut msg = chars_of("mv: ");
            push_str(&mut msg, e.as_str());
            push_str(&mut msg, "\n");
            proof {
                reveal_strlit("\n");
            }
            let text = string_from_chars(msg.as_slice());
            return CommandResult::error(text.as_str(), 1);
        },
    };
    let dest_is_dir = is_directory(resolver, &dest);
    if multi && !dest_is_dir {
        let r = not_a_directory_target("mv", &dest);
        proof {
            reveal_strlit("mv");
            reveal_strlit("mv: target '");
            reveal_strlit(": target '");
            assert(r.stderr@ =~= "mv: target '"@ + dest@ + "' is not a directory\n"@);
        }
        return r;
    }
    let ghost srcs = string_views(sources@);
    let ghost own = Seq::new(srcs.len(), |i: int| mv_own_refusal(session.cwd_view(), dest@, dest_is_dir, srcs[i]));
    let ghost prefixes = Seq::new(srcs.len(), |i: int| mv_failure_prefix(session.cwd_view(), dest@, dest_is_dir, srcs[i]));
    let mut stderr: Vec<char> = Vec::new();
    let mut exit_code: i32 = 0;
    let ghost mut segs: Seq<Seq<char>> = Seq::empty();
    let mut i: usize = 0;
    while i < sources.len()
        invariant
            i <= sources@.len(),
            srcs == string_views(sources@),
            own == Seq::new(srcs.len(), |i: int| mv_own_refusal(session.cwd_view(), dest@, dest_is_dir, srcs[i])),
            prefixes == Seq::new(srcs.len(), |i: int| mv_failure_prefix(session.cwd_view(), dest@, dest_is_dir, srcs[i])),
            (exit_code == 0 && stderr@.len() == 0) || (exit_code == 1 && stderr@.len() > 0),
            segs.len() == i,
            stderr@ == flatten(segs),
            forall|k: int| 0 <= k < i ==> match #[trigger] own[k] {
                Some(m) => segs[k] == m + seq!['\n'],
                None => host_lines(segs[k], prefixes[k]),
            },
        decreases sources.len() - i,
    {
        let raw = sources[i].as_str();
        let ghost start = stderr@;
        assert(srcs[i as int] == raw@);
        match resolve_arg(session.cwd(), raw) {
            Err(e) => {
                let mut line = chars_of("mv: ");
                push_str(&mut line, e.as_str());
                note_failure(&mut stderr, &mut exit_code, line.as_slice());
            },
            Ok(src) => match landing_path(&dest, dest_is_dir, &src, "cannot move the sandbox root") {
                Err(m) => {
                    let mut line = chars_of("mv: ");
                    push_str(&mut line, m.as_str());
                    note_failure(&mut stderr, &mut exit_code, line.as_slice());
                },
                Ok(final_dest) => {
                    if let Err(e) = move_one(resolver, &src, &final_dest) {
                        let mut line = chars_of("mv: cannot move '");
                        push_str(&mut line, raw);
                        push_str(&mut line, "' to '");
                        push_str(&mut line, final_dest.as_str());
                        push_str(&mut line, "': ");
                        let ghost pre = line@;
                        push_str(&mut line, e.message.as_str());
                        proof {
                            assert(pre == prefixes[i as int]);
                            assert(line@.subrange(0, pre.len() as int) =~= pre);
                            lemma_host_lines_extend(Seq::empty(), pre, line@);
                        }
                        note_failure(&mut stderr, &mut exit_code, line.as_slice());
                        assert(stderr@.skip(start.len() as int) =~= Seq::<char>::empty() + line@ + seq!['\n']);
                    }
                },
            },
        }
        let ghost seg = stderr@.skip(start.len() as int);
        proof {
            assert(stderr@ =~= start + seg);
            lemma_flatten_push(segs, seg);
            segs = segs.push(seg);
        }
        i = i + 1;
    }
    let text = string_from_chars(stderr.as_slice());
    CommandResult { stdout: String::new(), stderr: text, exit_code }
}


/// Sets `mode` on `target`, and under `recursive` on everything in it.
fn chmod_recursive<R: LayeredView>(resolver: &R, target: &SandboxPath, mode: u32, recursive: bool, depth: usize) -> (r: Result<(), FsError>)
    ensures
        depth == 0 ==> (r matches Err(e) && !e.not_found && e.message@ == "directory tree nested too deeply"@),
    decreases depth,
{
    if depth == 0 {
        return Err(too_deep());
    }
    let info = resolver.stat(target.as_str())?;
    resolver.chmod(target.as_str(), mode)?;
    if recursive && info.kind == FileKind::Directory {
        let entries = resolver.read_dir(target.as_str())?;
        let mut i: usize = 0;
        while i < entries.len()
            invariant
                i <= entries@.len(),
                depth > 0,
            decreases entries.len() - i,
        {
            let child = match target.join(entries[i].as_str()) {
                Ok(p) => p,
                Err(e) => return Err(FsError { not_found: false, message: e.message() }),
            };
            chmod_recursive(resolver, &child, mode, recursive, depth - 1)?;
            i = i + 1;
        }
    }
    Ok(())
}

/// The start of the line for a target the view would not change.
pub open spec fn chmod_failure_prefix(raw: Seq<char>) -> Seq<char> {
    "chmod: changing permissions of '"@ + raw + "': "@
}

/// `chmod [-R] MODE TARGET...`: sets the octal mode on each target; each
/// one that cannot be changed is reported and makes the exit code 1.
pub fn cmd_chmod<R: LayeredView>(session: &TerminalSession, resolver: &R, args: &[Arg]) -> (r: CommandResult)
    ensures
        ({
            let ops = operands(arg_views(args@));
            &&& ops.len() < 2 ==> r.stderr@ == "chmod: missing operand\n"@ && r.exit_code == 1
            &&& ops.len() >= 2 && parsed_u32(ops[0], 8) is None ==> r.stderr@ == "chmod: invalid mode: '"@
                + ops[0] + "' (only octal modes like 755 are supported)\n"@ && r.exit_code == 1
            &&& ops.len() >= 2 && parsed_u32(ops[0], 8) is Some ==> r.stdout@.len() == 0 && failure_shown(r)
                && ((exists|i: int| 1 <= i < ops.len() && #[trigger] resolved_arg(session.cwd_view(), ops[i]) is Err)
                ==> r.exit_code == 1)
        }),
        operands(arg_views(args@)).len() >= 2 && parsed_u32(operands(arg_views(args@))[0], 8) is Some ==> per_operand_stderr(
            r.stderr@,
            Seq::new(operands(arg_views(args@)).skip(1).len(), |i: int| unresolved_refusal("chmod"@, session.cwd_view(), operands(arg_views(args@)).skip(1)[i])),
            Seq::new(operands(arg_views(args@)).skip(1).len(), |i: int| chmod_failure_prefix(operands(arg_views(args@)).skip(1)[i])),
        ),
{
    let req = match chmod_request(args) {
        Ok(q) => q,
        Err(e) => return e,
    };
    let ghost ops = operands(arg_views(args@));
    let ghost tv = string_views(req.targets@);
    let ghost own = Seq::new(tv.len(), |i: int| unresolved_refusal("chmod"@, session.cwd_view(), tv[i]));
    let ghost prefixes = Seq::new(tv.len(), |i: int| chmod_failure_prefix(tv[i]));
    let mut stderr: Vec<char> = Vec::new();
    let mut exit_code: i32 = 0;
    let ghost mut segs: Seq<Seq<char>> = Seq::empty();
    let mut i: usize = 0;
    while i < req.targets.len()
        invariant
            string_views(req.targets@) == ops.skip(1),
            i <= req.targets@.len(),
            (exit_code == 0 && stderr@.len() == 0) || (exit_code == 1 && stderr@.len() > 0),
            forall|k: int| 0 <= k < i && #[trigger] resolved_arg(session.cwd_view(), req.targets@[k]@) is Err
                ==> exit_code == 1,
            tv == string_views(req.targets@),
            own == Seq::new(tv.len(), |i: int| unresolved_refusal("chmod"@, session.cwd_view(), tv[i])),
            prefixes == Seq::new(tv.len(), |i: int| chmod_failure_prefix(tv[i])),
            segs.len() == i,
            stderr@ == flatten(segs),
            segments_fit(segs, own, prefixes, i as int),
        decreases req.targets.len() - i,
    {
        let raw = req.targets[i].as_str();
        let ghost start = stderr@;
        assert(tv[i as int] == raw@);
        match resolve_arg(session.cwd(), raw) {
            Err(e) => {
                let mut line = chars_of("chmod: ");
                push_str(&mut line, e.as_str());
                note_failure(&mut stderr, &mut exit_code, line.as_slice());
                proof {
                    reveal_strlit("chmod");
                    reveal_strlit("chmod: ");
                    reveal_strlit(": ");
                    assert("chmod"@ + ": "@ =~= "chmod: "@);
                }
                assert(stderr@.skip(start.len() as int) =~= line@ + seq!['\n']);
            },
            Ok(target) => {
                if let Err(e) = chmod_recursive(resolver, &target, req.mode, req.recursive, MAX_WALK_DEPTH) {
                    let line = error_line("chmod: changing permissions of '", raw, "': ", &e);
                    proof {
                        assert(line@.subrange(0, chmod_failure_prefix(raw@).len() as int) =~= chmod_failure_prefix(raw@));
                        lemma_host_line(chmod_failure_prefix(raw@), line@);
                    }
                    note_failure(&mut stderr, &mut exit_code, line.as_slice());
                    assert(stderr@.skip(start.len() as int) =~= line@ + seq!['\n']);
                } else {
                    assert(stderr@.skip(start.len() as int) =~= Seq::<char>::empty());
                }
            },
        }
        proof {
            assert(stderr@.subrange(0, start.len() as int) =~= start);
            lemma_segment_step(segs, start, stderr@, own, prefixes);
            segs = segs.push(stderr@.skip(start.len() as int));
        }
        i = i + 1;
    }
    proof {
        assert forall|j: int| 1 <= j < ops.len() && #[trigger] resolved_arg(session.cwd_view(), ops[j]) is Err
            implies exit_code == 1 by {
            assert(ops.skip(1)[j - 1] == ops[j]);
            assert(string_views(req.targets@).len() == req.targets@.len());
            assert(0 <= j - 1 < req.targets@.len());
            assert(string_views(req.targets@)[j - 1] == req.targets@[j - 1]@);
        }
    }
    let text = string_from_chars(stderr.as_slice());
    CommandResult { stdout: String::new(), stderr: text, exit_code }
}

/// Sets the owner and group that are given on `target`, and under
/// `recursive` on everything in it.
fn chown_recursive<R: LayeredView>(resolver: &R, target: &SandboxPath, uid: Option<u32>, gid: Option<u32>, recursive: bool, depth: usize) -> (r: Result<(), FsError>)
    ensures
        depth == 0 ==> (r matches Err(e) && !e.not_found && e.message@ == "directory tree nested too deeply"@),
    decreases depth,
{
    if depth == 0 {
        return Err(too_deep());
    }
    let info = resolver.stat(target.as_str())?;
    resolver.chown(target.as_str(), uid, gid)?;
    if recursive && info.kind == FileKind::Directory {
        let entries = resolver.read_dir(target.as_str())?;
        let mut i: usize = 0;
        while i < entries.len()
            invariant
                i <= entries@.len(),
                depth > 0,
            decreases entries.len() - i,
        {
            let child = match target.join(entries[i].as_str()) {
                Ok(p) => p,
                Err(e) => return Err(FsError { not_found: false, message: e.message() }),
            };
            chown_recursive(resolver, &child, uid, gid, recursive, depth - 1)?;
            i = i + 1;
        }
    }
    Ok(())
}

/// The start of the line for a target the view would not change.
pub open spec fn chown_failure_prefix(raw: Seq<char>) -> Seq<char> {
    "chown: changing ownership of '"@ + raw + "': "@
}

/// `chown [-R] UID[:GID] TARGET...`: sets the numeric owner (and group) on
/// each target; each one that cannot be changed is reported and makes the
/// exit code 1.
pub fn cmd_chown<R: LayeredView>(session: &TerminalSession, resolver: &R, args: &[Arg]) -> (r: CommandResult)
    ensures
        ({
            let ops = operands(arg_views(args@));
            &&& ops.len() < 2 ==> r.stderr@ == "chown: missing operand\n"@ && r.exit_code == 1
            &&& ops.len() >= 2 && owner_ids(ops[0]) == Err::<(Option<u32>, Option<u32>), bool>(true)
                ==> r.stderr@ == "chown: invalid user: '"@ + ops[0] + "' (only numeric uid[:gid] is supported)\n"@
                && r.exit_code == 1
            &&& ops.len() >= 2 && owner_ids(ops[0]) == Err::<(Option<u32>, Option<u32>), bool>(false)
                ==> r.stderr@ == "chown: invalid group: '"@ + ops[0] + "' (only numeric uid[:gid] is supported)\n"@
                && r.exit_code == 1
            &&& ops.len() >= 2 && owner_ids(ops[0]) is Ok ==> r.stdout@.len() == 0 && failure_shown(r)
                && ((exists|i: int| 1 <= i < ops.len() && #[trigger] resolved_arg(session.cwd_view(), ops[i]) is Err)
                ==> r.exit_code == 1)
        }),
        operands(arg_views(args@)).len() >= 2 && owner_ids(operands(arg_views(args@))[0]) is Ok ==> per_operand_stderr(
            r.stderr@,
            Seq::new(operands(arg_views(args@)).skip(1).len(), |i: int| unresolved_refusal("chown"@, session.cwd_view(), operands(arg_views(args@)).skip(1)[i])),
            Seq::new(operands(arg_views(args@)).skip(1).len(), |i: int| chown_failure_prefix(operands(arg_views(args@)).skip(1)[i])),
        ),
{
    let req = match chown_request(args) {
        Ok(q) => q,
        Err(e) => return e,
    };
    let ghost ops = operands(arg_views(args@));
    let ghost tv = string_views(req.targets@);
    let ghost own = Seq::new(tv.len(), |i: int| unresolved_refusal("chown"@, session.cwd_view(), tv[i]));
    let ghost prefixes = Seq::new(tv.len(), |i: int| chown_failure_prefix(tv[i]));
    let mut stderr: Vec<char> = Vec::new();
    let mut exit_code: i32 = 0;
    let ghost mut segs: Seq<Seq<char>> = Seq::empty();
    let mut i: usize = 0;
    while i < req.targets.len()
        invariant
            string_views(req.targets@) == ops.skip(1),
            i <= req.targets@.len(),
            (exit_code == 0 && stderr@.len() == 0) || (exit_code == 1 && stderr@.len() > 0),
            forall|k: int| 0 <= k < i && #[trigger] resolved_arg(session.cwd_view(), req.targets@[k]@) is Err
                ==> exit_code == 1,
            tv == string_views(req.targets@),
            own == Seq::new(tv.len(), |i: int| unresolved_refusal("chown"@, session.cwd_view(), tv[i])),
            prefixes == Seq::new(tv.len(), |i: int| chown_failure_prefix(tv[i])),
            segs.len() == i,
            stderr@ == flatten(segs),
            segments_fit(segs, own, prefixes, i as int),
        decreases req.targets.len() - i,
    {
        let raw = req.targets[i].as_str();
        let ghost start = stderr@;
        assert(tv[i as int] == raw@);
        match resolve_arg(session.cwd(), raw) {
            Err(e) => {
                let mut line = chars_of("chown: ");
                push_str(&mut line, e.as_str());
                note_failure(&mut stderr, &mut exit_code, line.as_slice());
                proof {
                    reveal_strlit("chown");
                    reveal_strlit("chown: ");
                    reveal_strlit(": ");
                    assert("chown"@ + ": "@ =~= "chown: "@);
                }
                assert(stderr@.skip(start.len() as int) =~= line@ + seq!['\n']);
            },
            Ok(target) => {
                if let Err(e) = chown_recursive(resolver, &target, req.uid, req.gid, req.recursive, MAX_WALK_DEPTH) {
                    let line = error_line("chown: changing ownership of '", raw, "': ", &e);
                    proof {
                        assert(line@.subrange(0, chown_failure_prefix(raw@).len() as int) =~= chown_failure_prefix(raw@));
                        lemma_host_line(chown_failure_prefix(raw@), line@);
                    }
                    note_failure(&mut stderr, &mut exit_code, line.as_slice());
                    assert(stderr@.skip(start.len() as int) =~= line@ + seq!['\n']);
                } else {
                    assert(stderr@.skip(start.len() as int) =~= Seq::<char>::empty());
                }
            },
        }
        proof {
            assert(stderr@.subrange(0, start.len() as int) =~= start);
            lemma_segment_step(segs, start, stderr@, own, prefixes);
            segs = segs.push(stderr@.skip(start.len() as int));
        }
        i = i + 1;
    }
    proof {
        assert forall|j: int| 1 <= j < ops.len() && #[trigger] resolved_arg(session.cwd_view(), ops[j]) is Err
            implies exit_code == 1 by {
            assert(ops.skip(1)[j - 1] == ops[j]);
            assert(string_views(req.targets@).len() == req.targets@.len());
            assert(0 <= j - 1 < req.targets@.len());
            assert(string_views(req.targets@)[j - 1] == req.targets@[j - 1]@);
        }
    }
    let text = string_from_chars(stderr.as_slice());
    CommandResult { stdout: String::new(), stderr: text, exit_code }
}

/// Collects, below and including `path`, every entry `find` selects.
fn find_walk<R: LayeredView>(resolver: &R, path: &SandboxPath, req: &FindRequest, out: &mut Vec<String>, depth: usize) -> (r: Result<(), FsError>)
    ensures
        depth == 0 ==> (r matches Err(e) && !e.not_found && e.message@ == "directory tree nested too deeply"@
            && final(out)@ == old(out)@),
    decreases depth,
{
    if depth == 0 {
        return Err(too_deep());
    }
    let info = resolver.stat(path.as_str())?;
    let leaf = match path.file_name() {
        Some(n) => n,
        None => "/".to_string(),
    };
    if find_matches(req, leaf.as_str(), info.kind) {
        out.push(path.as_str().to_string());
    }
    if info.kind == FileKind::Directory {
        let entries = resolver.read_dir(path.as_str())?;
        let mut i: usize = 0;
        while i < entries.len()
            invariant
                i <= entries@.len(),
                depth > 0,
            decreases entries.len() - i,
        {
            let child = match path.join(entries[i].as_str()) {
                Ok(p) => p,
                Err(e) => return Err(FsError { not_found: false, message: e.message() }),
            };
            find_walk(resolver, &child, req, out, depth - 1)?;
            i = i + 1;
        }
    }
    Ok(())
}

/// `find [PATH] [-name PATTERN] [-type f|d]`: every entry at or below the
/// start that matches, sorted, one per line.
pub fn cmd_find<R: LayeredView>(session: &TerminalSession, resolver: &R, args: &[Arg]) -> (r: CommandResult)
    ensures
        ({
            let o = find_options(arg_views(args@));
            resolved_arg(session.cwd_view(), o.path) matches Err(m) ==> r.stderr@ == "find: "@ + m + "\n"@
                && r.stdout@.len() == 0 && r.exit_code == 1
        }),
        r.exit_code == 0 ==> r.stderr@.len() == 0,
        r.exit_code == 0 || (r.exit_code == 1 && r.stdout@.len() == 0),
        r.exit_code == 0 ==> exists|found: Seq<Seq<char>>| #[trigger] ls_text(sorted_names(found)) == r.stdout@,
        ({
            let o = find_options(arg_views(args@));
            resolved_arg(session.cwd_view(), o.path) is Ok && r.exit_code == 1 ==> exists|m: Seq<char>|
                r.stderr@ == "find: '"@ + o.path + "': "@ + #[trigger] m.add("\n"@)
        }),
{
    let req = find_request(args);
    let start = match resolve_arg(session.cwd(), req.path.as_str()) {
        Ok(p) => p,
        Err(e) => {
            let mut msg = chars_of("find: ");
            push_str(&mut msg, e.as_str());
            push_str(&mut msg, "\n");
            let text = string_from_chars(msg.as_slice());
            return CommandResult::error(text.as_str(), 1);
        },
    };
    let mut results: Vec<String> = Vec::new();
    if let Err(e) = find_walk(resolver, &start, &req, &mut results, MAX_WALK_DEPTH) {
        let mut line = error_line("find: '", req.path.as_str(), "': ", &e);
        push_str(&mut line, "\n");
        let text = string_from_chars(line.as_slice());
        let r = CommandResult::error(text.as_str(), 1);
        assert(r.stderr@ =~= "find: '"@ + req.path@ + "': "@ + e.message@.add("\n"@));
        return r;
    }
    let sorted = sort_names(&results);
    let r = ls_output(&sorted);
    assert(ls_text(sorted_names(string_views(results@))) == r.stdout@);
    r
}

/// The bytes at or below `path`: a file's length, or the sum over a
/// directory's entries (a sum past `u64::MAX` stays there).
fn du_walk<R: LayeredView>(resolver: &R, path: &SandboxPath, depth: usize) -> (r: Result<u64, FsError>)
    ensures
        depth == 0 ==> (r matches Err(e) && !e.not_found && e.message@ == "directory tree nested too deeply"@),
    decreases depth,
{
    if depth == 0 {
        return Err(too_deep());
    }
    let info = resolver.stat(path.as_str())?;
    if info.kind != FileKind::Directory {
        return Ok(info.len);
    }
    let entries = resolver.read_dir(path.as_str())?;
    let mut total: u64 = 0;
    let mut i: usize = 0;
    while i < entries.len()
        invariant
            i <= entries@.len(),
            depth > 0,
        decreases entries.len() - i,
    {
        let child = match path.join(entries[i].as_str()) {
            Ok(p) => p,
            Err(e) => return Err(FsError { not_found: false, message: e.message() }),
        };
        let n = du_walk(resolver, &child, depth - 1)?;
        total = total.saturating_add(n);
        i = i + 1;
    }
    Ok(total)
}

/// The start of the line for a target `du` could not measure.
pub open spec fn du_failure_prefix(raw: Seq<char>) -> Seq<char> {
    "du: cannot access '"@ + raw + "': "@
}

/// Whether `piece` is what `du` prints for the target `raw`: nothing, or
/// some total, a tab, the target and a newline.
pub open spec fn du_piece(piece: Seq<char>, raw: Seq<char>) -> bool {
    piece.len() == 0 || exists|total: u64| #[trigger] decimal(total as nat) + "\t"@ + raw + "\n"@ == piece
}

/// Whether `stdout` is made of one piece per target, in order: nothing for
/// a target refused by itself, else what `du` prints for it.
pub open spec fn du_stdout(stdout: Seq<char>, own: Seq<Option<Seq<char>>>, targets: Seq<Seq<char>>) -> bool {
    exists|outs: Seq<Seq<char>>|
        outs.len() == own.len() && stdout == flatten(outs) && forall|i: int|
            0 <= i < outs.len() ==> if #[trigger] own[i] is Some {
                outs[i].len() == 0
            } else {
                du_piece(outs[i], targets[i])
            }
}

/// `du [TARGET...]`: the bytes at or below each target (`.` when none is
/// given), one line each; each target that cannot be measured is reported
/// and makes the exit code 1.
pub fn cmd_du<R: LayeredView>(session: &TerminalSession, resolver: &R, args: &[Arg]) -> (r: CommandResult)
    ensures
        failure_shown(r),
        (exists|i: int| 0 <= i < du_targets_spec(arg_views(args@)).len()
            && #[trigger] resolved_arg(session.cwd_view(), du_targets_spec(arg_views(args@))[i]) is Err)
            ==> r.exit_code == 1,
        ({
            let tv = du_targets_spec(arg_views(args@));
            let own = Seq::new(tv.len(), |i: int| unresolved_refusal("du"@, session.cwd_view(), tv[i]));
            &&& per_operand_stderr(r.stderr@, own, Seq::new(tv.len(), |i: int| du_failure_prefix(tv[i])))
            &&& du_stdout(r.stdout@, own, tv)
        }),
{
    let targets = du_targets(args);
    let ghost tv = du_targets_spec(arg_views(args@));
    let ghost own = Seq::new(tv.len(), |i: int| unresolved_refusal("du"@, session.cwd_view(), tv[i]));
    let ghost prefixes = Seq::new(tv.len(), |i: int| du_failure_prefix(tv[i]));
    let mut stdout: Vec<char> = Vec::new();
    let mut stderr: Vec<char> = Vec::new();
    let mut exit_code: i32 = 0;
    let ghost mut segs: Seq<Seq<char>> = Seq::empty();
    let ghost mut outs: Seq<Seq<char>> = Seq::empty();
    let mut i: usize = 0;
    while i < targets.len()
        invariant
            string_views(targets@) == tv,
            i <= targets@.len(),
            own == Seq::new(tv.len(), |i: int| unresolved_refusal("du"@, session.cwd_view(), tv[i])),
            prefixes == Seq::new(tv.len(), |i: int| du_failure_prefix(tv[i])),
            (exit_code == 0 && stderr@.len() == 0) || (exit_code == 1 && stderr@.len() > 0),
            forall|k: int| 0 <= k < i && #[trigger] resolved_arg(session.cwd_view(), tv[k]) is Err
                ==> exit_code == 1,
            segs.len() == i,
            stderr@ == flatten(segs),
            segments_fit(segs, own, prefixes, i as int),
            outs.len() == i,
            stdout@ == flatten(outs),
            forall|k: int| 0 <= k < i ==> if #[trigger] own[k] is Some {
                outs[k].len() == 0
            } else {
                du_piece(outs[k], tv[k])
            },
        decreases targets.len() - i,
    {
        let raw = targets[i].as_str();
        let ghost start = stderr@;
        let ghost out_start = stdout@;
        assert(tv[i as int] == targets@[i as int]@);
        match resolve_arg(session.cwd(), raw) {
            Err(e) => {
                let mut line = chars_of("du: ");
                push_str(&mut line, e.as_str());
                note_failure(&mut stderr, &mut exit_code, line.as_slice());
                proof {
                    reveal_strlit("du");
                    reveal_strlit("du: ");
                    reveal_strlit(": ");
                    assert("du"@ + ": "@ =~= "du: "@);
                }
                assert(stderr@.skip(start.len() as int) =~= line@ + seq!['\n']);
            },
            Ok(target) => match du_walk(resolver, &target, MAX_WALK_DEPTH) {
                Ok(total) => {
                    let line = du_line(total, raw);
                    push_str(&mut stdout, line.as_str());
                    assert(decimal(total as nat) + "\t"@ + raw@ + "\n"@ == stdout@.skip(out_start.len() as int));
                    assert(stderr@.skip(start.len() as int) =~= Seq::<char>::empty());
                },
                Err(e) => {
                    let line = error_line("du: cannot access '", raw, "': ", &e);
                    proof {
                        assert(line@.subrange(0, du_failure_prefix(raw@).len() as int) =~= du_failure_prefix(raw@));
                        lemma_host_line(du_failure_prefix(raw@), line@);
                    }
                    note_failure(&mut stderr, &mut exit_code, line.as_slice());
                    assert(stderr@.skip(start.len() as int) =~= line@ + seq!['\n']);
                },
            },
        }
        proof {
            assert(stderr@.subrange(0, start.len() as int) =~= start);
            lemma_segment_step(segs, start, stderr@, own, prefixes);
            segs = segs.push(stderr@.skip(start.len() as int));
            let piece = stdout@.skip(out_start.len() as int);
            assert(stdout@ =~= out_start + piece);
            lemma_flatten_push(outs, piece);
            let o2 = outs.push(piece);
            assert forall|k: int| 0 <= k < i + 1 implies if #[trigger] own[k] is Some {
                o2[k].len() == 0
            } else {
                du_piece(o2[k], tv[k])
            } by {
                if k < i {
                    assert(o2[k] == outs[k]);
                }
            }
            outs = o2;
        }
        i = i + 1;
    }
    let out = string_from_chars(stdout.as_slice());
    let err = string_from_chars(stderr.as_slice());
    CommandResult { stdout: out, stderr: err, exit_code }
}

/// `df`: one simulated filesystem, using what `du` counts from the root
/// (nothing when that cannot be measured).
pub fn cmd_df<R: LayeredView>(resolver: &R) -> (r: CommandResult)
    ensures
        r.exit_code == 0,
        r.stderr@.len() == 0,
        exists|used: u64| r.stdout@ == "Filesystem       1K-blocks  Used  Available  Use%  Mounted on\nsafeshell-sim            -  "@
            + decimal(used as nat) + "          -     -  /\n"@,
{
    let used = match du_walk(resolver, &SandboxPath::root(), MAX_WALK_DEPTH) {
        Ok(n) => n,
        Err(_) => 0,
    };
    let r = df_output(used);
    assert(r.stdout@ == "Filesystem       1K-blocks  Used  Available  Use%  Mounted on\nsafeshell-sim            -  "@
            + decimal(used as nat) + "          -     -  /\n"@);
    r
}

/// A file's contents cut or padded with zero bytes to `size` bytes.
pub open spec fn truncated(existing: Seq<u8>, size: nat) -> Seq<u8> {
    if size <= existing.len() {
        existing.take(size as int)
    } else {
        existing + Seq::new((size - existing.len()) as nat, |i: int| 0u8)
    }
}

/// What `truncate` writes for a file that held `existing` (nothing for a
/// missing one), and `shred` for a file of `size` bytes: `existing` cut or
/// padded with zero bytes to `size` bytes.
pub fn truncated_contents(existing: Vec<u8>, size: usize) -> (r: Vec<u8>)
    ensures
        r@ == truncated(existing@, size as nat),
{
    let mut contents = existing;
    let ghost before = contents@;
    contents.resize(size, 0u8);
    proof {
        if size > before.len() {
            assert forall|i: int| 0 <= i < size implies contents@[i] == truncated(before, size as nat)[i] by {
                if i >= before.len() {
                    assert(cloned::<u8>(0u8, contents@[i]));
                } else {
                    assert(contents@.subrange(0, before.len() as int)[i] == before[i]);
                }
            }
            assert(contents@ =~= truncated(before, size as nat));
        } else {
            assert(contents@ =~= truncated(before, size as nat));
        }
    }
    contents
}

/// The start of the line for a file the view would not truncate.
pub open spec fn truncate_failure_prefix(raw: Seq<char>) -> Seq<char> {
    "truncate: cannot truncate '"@ + raw + "': "@
}

/// `truncate -s SIZE FILE...`: sets each file's length, cutting it or
/// padding it with zero bytes (a missing file starts empty); each one that
/// cannot be written is reported and makes the exit code 1.
pub fn cmd_truncate<R: LayeredView>(session: &TerminalSession, resolver: &R, args: &[Arg]) -> (r: CommandResult)
    ensures
        ({
            let (size, targets) = truncate_scan(arg_views(args@), 0, None, Seq::empty());
            &&& size is None ==> r.stderr@ == "truncate: you must specify a size with -s\n"@ && r.exit_code == 1
            &&& size is Some && targets.len() == 0 ==> r.stderr@ == "truncate: missing file operand\n"@
                && r.exit_code == 1
            &&& size is Some && targets.len() > 0 ==> r.stdout@.len() == 0 && failure_shown(r)
                && ((exists|i: int| 0 <= i < targets.len() && #[trigger] resolved_arg(session.cwd_view(), targets[i]) is Err)
                ==> r.exit_code == 1)
        }),
        ({
            let (size, targets) = truncate_scan(arg_views(args@), 0, None, Seq::empty());
            size is Some && targets.len() > 0 ==> per_operand_stderr(
                r.stderr@,
                Seq::new(targets.len(), |i: int| unresolved_refusal("truncate"@, session.cwd_view(), targets[i])),
                Seq::new(targets.len(), |i: int| truncate_failure_prefix(targets[i])),
            )
        }),
{
    let req = match truncate_request(args) {
        Ok(q) => q,
        Err(e) => return e,
    };
    let ghost tv = string_views(req.targets@);
    let ghost own = Seq::new(tv.len(), |i: int| unresolved_refusal("truncate"@, session.cwd_view(), tv[i]));
    let ghost prefixes = Seq::new(tv.len(), |i: int| truncate_failure_prefix(tv[i]));
    let mut stderr: Vec<char> = Vec::new();
    let mut exit_code: i32 = 0;
    let ghost mut segs: Seq<Seq<char>> = Seq::empty();
    let mut i: usize = 0;
    while i < req.targets.len()
        invariant
            i <= req.targets@.len(),
            (exit_code == 0 && stderr@.len() == 0) || (exit_code == 1 && stderr@.len() > 0),
            forall|k: int| 0 <= k < i && #[trigger] resolved_arg(session.cwd_view(), req.targets@[k]@) is Err
                ==> exit_code == 1,
            tv == string_views(req.targets@),
            own == Seq::new(tv.len(), |i: int| unresolved_refusal("truncate"@, session.cwd_view(), tv[i])),
            prefixes == Seq::new(tv.len(), |i: int| truncate_failure_prefix(tv[i])),
            segs.len() == i,
            stderr@ == flatten(segs),
            segments_fit(segs, own, prefixes, i as int),
        decreases req.targets.len() - i,
    {
        let raw = req.targets[i].as_str();
        let ghost start = stderr@;
        assert(tv[i as int] == raw@);
        match resolve_arg(session.cwd(), raw) {
            Err(e) => {
                let mut line = chars_of("truncate: ");
                push_str(&mut line, e.as_str());
                note_failure(&mut stderr, &mut exit_code, line.as_slice());
                proof {
                    reveal_strlit("truncate");
                    reveal_strlit("truncate: ");
                    reveal_strlit(": ");
                    assert("truncate"@ + ": "@ =~= "truncate: "@);
                }
                assert(stderr@.skip(start.len() as int) =~= line@ + seq!['\n']);
            },
            Ok(target) => {
                let existing = match resolver.read_file(target.as_str()) {
                    Ok(b) => b,
                    Err(_) => Vec::new(),
                };
                let contents = truncated_contents(existing, req.size as usize);
                if let Err(e) = resolver.write_file(target.as_str(), contents.as_slice()) {
                    let line = error_line("truncate: cannot truncate '", raw, "': ", &e);
                    proof {
                        assert(line@.subrange(0, truncate_failure_prefix(raw@).len() as int) =~= truncate_failure_prefix(raw@));
                        lemma_host_line(truncate_failure_prefix(raw@), line@);
                    }
                    note_failure(&mut stderr, &mut exit_code, line.as_slice());
                    assert(stderr@.skip(start.len() as int) =~= line@ + seq!['\n']);
                } else {
                    assert(stderr@.skip(start.len() as int) =~= Seq::<char>::empty());
                }
            },
        }
        proof {
            assert(stderr@.subrange(0, start.len() as int) =~= start);
            lemma_segment_step(segs, start, stderr@, own, prefixes);
            segs = segs.push(stderr@.skip(start.len() as int));
        }
        i = i + 1;
    }
    proof {
        let (size, targets) = truncate_scan(arg_views(args@), 0, None, Seq::empty());
        assert forall|j: int| 0 <= j < targets.len() && #[trigger] resolved_arg(session.cwd_view(), targets[j]) is Err
            implies exit_code == 1 by {
            assert(string_views(req.targets@)[j] == req.targets@[j]@);
        }
    }
    let text = string_from_chars(stderr.as_slice());
    CommandResult { stdout: String::new(), stderr: text, exit_code }
}

/// The start of every line `shred` prints for a target the view failed on.
pub open spec fn shred_failure_prefix() -> Seq<char> {
    "shred: "@
}

/// `shred [-u] FILE...`: overwrites each file with as many zero bytes as
/// it holds, then under `-u` removes it; each one that cannot be shredded
/// or removed is reported and makes the exit code 1.
pub fn cmd_shred<R: LayeredView>(session: &TerminalSession, resolver: &R, args: &[Arg]) -> (r: CommandResult)
    ensures
        ({
            let ops = operands(arg_views(args@));
            &&& ops.len() == 0 ==> r.stderr@ == "shred: missing file operand\n"@ && r.exit_code == 1
            &&& ops.len() > 0 ==> r.stdout@.len() == 0 && failure_shown(r)
                && ((exists|i: int| 0 <= i < ops.len() && #[trigger] resolved_arg(session.cwd_view(), ops[i]) is Err)
                ==> r.exit_code == 1)
            &&& ops.len() > 0 ==> per_operand_stderr(
                r.stderr@,
                Seq::new(ops.len(), |i: int| unresolved_refusal("shred"@, session.cwd_view(), ops[i])),
                Seq::new(ops.len(), |i: int| shred_failure_prefix()),
            )
        }),
{
    let req = match shred_request(args) {
        Ok(q) => q,
        Err(e) => return e,
    };
    let ghost tv = string_views(req.targets@);
    let ghost own = Seq::new(tv.len(), |i: int| unresolved_refusal("shred"@, session.cwd_view(), tv[i]));
    let ghost prefixes = Seq::new(tv.len(), |i: int| shred_failure_prefix());
    let mut stderr: Vec<char> = Vec::new();
    let mut exit_code: i32 = 0;
    let ghost mut segs: Seq<Seq<char>> = Seq::empty();
    let mut i: usize = 0;
    while i < req.targets.len()
        invariant
            i <= req.targets@.len(),
            tv == string_views(req.targets@),
            own == Seq::new(tv.len(), |i: int| unresolved_refusal("shred"@, session.cwd_view(), tv[i])),
            prefixes == Seq::new(tv.len(), |i: int| shred_failure_prefix()),
            (exit_code == 0 && stderr@.len() == 0) || (exit_code == 1 && stderr@.len() > 0),
            forall|k: int| 0 <= k < i && #[trigger] resolved_arg(session.cwd_view(), req.targets@[k]@) is Err
                ==> exit_code == 1,
            segs.len() == i,
            stderr@ == flatten(segs),
            segments_fit(segs, own, prefixes, i as int),
        decreases req.targets.len() - i,
    {
        let raw = req.targets[i].as_str();
        let ghost start = stderr@;
        assert(tv[i as int] == raw@);
        proof {
            reveal_strlit("shred");
            reveal_strlit("shred: ");
            reveal_strlit(": ");
            assert("shred"@ + ": "@ =~= "shred: "@);
        }
        let failure: Option<Vec<char>> = match resolve_arg(session.cwd(), raw) {
            Err(e) => {
                let mut line = chars_of("shred: ");
                push_str(&mut line, e.as_str());
                note_failure(&mut stderr, &mut exit_code, line.as_slice());
                assert(stderr@.skip(start.len() as int) =~= line@ + seq!['\n']);
                None
            },
            Ok(target) => match resolver.stat(target.as_str()) {
                Err(e) => Some(error_line("shred: ", raw, ": ", &e)),
                Ok(info) => {
                    let zeros = truncated_contents(Vec::new(), info.len as usize);
                    match resolver.write_file(target.as_str(), zeros.as_slice()) {
                        Err(e) => Some(error_line("shred: cannot shred '", raw, "': ", &e)),
                        Ok(()) => {
                            let mut removal: Option<Vec<char>> = None;
                            if req.unlink {
                                if let Some((parent, name)) = target.place() {
                                    if let Err(e) = resolver.remove(parent.as_str(), name.as_str(), false) {
                                        removal = Some(error_line("shred: cannot remove '", raw, "': ", &e));
                                    }
                                }
                            }
                            removal
                        },
                    }
                },
            },
        };
        match failure {
            Some(line) => {
                proof {
                    reveal_strlit("shred: cannot shred '");
                    reveal_strlit("shred: cannot remove '");
                    assert(line@.subrange(0, shred_failure_prefix().len() as int) =~= shred_failure_prefix());
                    lemma_host_line(shred_failure_prefix(), line@);
                }
                note_failure(&mut stderr, &mut exit_code, line.as_slice());
                assert(stderr@.skip(start.len() as int) =~= line@ + seq!['\n']);
            },
            None => {
                proof {
                    if stderr@.len() == start.len() {
                        assert(stderr@.skip(start.len() as int) =~= Seq::<char>::empty());
                    }
                }
            },
        }
        proof {
            assert(stderr@.subrange(0, start.len() as int) =~= start);
            lemma_segment_step(segs, start, stderr@, own, prefixes);
            segs = segs.push(stderr@.skip(start.len() as int));
        }
        i = i + 1;
    }
    let text = string_from_chars(stderr.as_slice());
    CommandResult { stdout: String::new(), stderr: text, exit_code }
}

} // verus!
