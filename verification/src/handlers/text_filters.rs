//! The text filters: `wc`, `sort`, `uniq`, `cut`, `head`, `tail` and
//! `date` run the coreutils filters on the host over one file's bytes
//! (flags only, never a path, on their command line); `grep` is matched
//! here. Also their argument handling: one file operand given last, and the
//! refusals of `tail -f` and `date -s`.

use vstd::prelude::*;
use crate::handlers::CommandResult;
use crate::handlers::fs_ext::{resolve_arg, resolved_arg};
use crate::session::TerminalSession;
use crate::simulation::resolver::LayeredView;
use crate::parser::Arg;
use crate::policy::risk::arg_views;
use crate::simulation::diff::string_views;
use crate::handlers::fs_ext::{flag_chars, operands, short_flags};
use crate::text::{text_from_bytes, text_of_bytes, chars_of, contains_char, decimal, decimal_text, has_prefix, push_all, push_str, starts_with, str_eq, string_from_chars};

verus! {

/// The message for a filter given no file operand.
pub open spec fn missing_file_operand() -> Seq<char> {
    "missing file operand (reading stdin is not supported)"@
}

/// The message for a filter given more than one file operand.
pub open spec fn single_file_only() -> Seq<char> {
    "only a single file operand is supported"@
}

/// Whether an argument is a flag: a `-` followed by something.
pub open spec fn is_flag_word(a: Seq<char>) -> bool {
    a.len() > 1 && a[0] == '-'
}

/// Whether the argument at `i` (not the last) is a second file operand:
/// it is no flag, and it does not follow a flag as that flag's value.
pub open spec fn stray_operand(args: Seq<Seq<char>>, i: int) -> bool {
    &&& !is_flag_word(args[i])
    &&& (i == 0 || !is_flag_word(args[i - 1]))
}

/// How a filter's arguments split: the last is the one file operand and
/// every argument before it is a flag or a flag's value. No argument, a
/// last argument that looks like a flag, or a second file operand, is
/// refused.
pub open spec fn flags_and_file(args: Seq<Seq<char>>) -> Result<(Seq<Seq<char>>, Seq<char>), Seq<char>> {
    if args.len() == 0 {
        Err(missing_file_operand())
    } else if is_flag_word(args.last()) {
        Err(missing_file_operand())
    } else if exists|i: int| 0 <= i < args.len() - 1 && #[trigger] stray_operand(args, i) {
        Err(single_file_only())
    } else {
        Ok((args.drop_last(), args.last()))
    }
}

fn is_flag_arg(a: &Arg) -> (b: bool)
    ensures
        b == is_flag_word(a.0@),
{
    let cs = chars_of(a.as_str());
    cs.len() > 1 && cs[0] == '-'
}

/// Splits a filter's arguments into its flags and its single file operand.
pub fn split_flags_and_single_file(args: &[Arg]) -> (r: Result<(Vec<String>, String), String>)
    ensures
        match r {
            Ok((flags, file)) => flags_and_file(arg_views(args@)) == Ok::<
                (Seq<Seq<char>>, Seq<char>),
                Seq<char>,
            >((string_views(flags@), file@)),
            Err(e) => flags_and_file(arg_views(args@)) == Err::<
                (Seq<Seq<char>>, Seq<char>),
                Seq<char>,
            >(e@),
        },
{
    let ghost av = arg_views(args@);
    if args.len() == 0 {
        return Err("missing file operand (reading stdin is not supported)".to_string());
    }
    assert(args@[args@.len() - 1].0@ == av.last());
    if is_flag_arg(&args[args.len() - 1]) {
        return Err("missing file operand (reading stdin is not supported)".to_string());
    }
    let mut flags: Vec<String> = Vec::new();
    let mut i: usize = 0;
    while i + 1 < args.len()
        invariant
            av == arg_views(args@),
            args@.len() >= 1,
            i <= args@.len() - 1,
            flags@.len() == i,
            forall|k: int| 0 <= k < i ==> #[trigger] flags@[k]@ == av[k],
            forall|k: int| 0 <= k < i ==> !#[trigger] stray_operand(av, k),
            !is_flag_word(av.last()),
        decreases args.len() - i,
    {
        assert(av[i as int] == args@[i as int].0@);
        if i > 0 {
            assert(av[i - 1] == args@[i - 1].0@);
        }
        if !is_flag_arg(&args[i]) && (i == 0 || !is_flag_arg(&args[i - 1])) {
            assert(av.len() == args@.len());
            assert(stray_operand(av, i as int));
            return Err("only a single file operand is supported".to_string());
        }
        let item = args[i].0.clone();
        flags.push(item);
        i = i + 1;
    }
    assert(string_views(flags@) =~= av.drop_last());
    Ok((flags, args[args.len() - 1].0.clone()))
}

/// `tool: message` and a newline, the form of a filter's error line.
pub open spec fn tool_error(tool: Seq<char>, message: Seq<char>) -> Seq<char> {
    tool + ": "@ + message + "\n"@
}

/// What a filter over one file needs, or the error it fails with: its flags
/// and its file operand.
pub fn filter_request(tool: &str, args: &[Arg]) -> (r: Result<(Vec<String>, String), CommandResult>)
    ensures
        match r {
            Ok((flags, file)) => flags_and_file(arg_views(args@)) == Ok::<
                (Seq<Seq<char>>, Seq<char>),
                Seq<char>,
            >((string_views(flags@), file@)),
            Err(res) => {
                &&& flags_and_file(arg_views(args@)) is Err
                &&& res.stderr@ == tool_error(tool@, flags_and_file(arg_views(args@))->Err_0)
                &&& res.stdout@.len() == 0
                &&& res.exit_code == 1
            },
        },
{
    match split_flags_and_single_file(args) {
        Ok(v) => Ok(v),
        Err(e) => {
            let mut msg = chars_of(tool);
            push_str(&mut msg, ": ");
            push_str(&mut msg, e.as_str());
            push_str(&mut msg, "\n");
            let text = string_from_chars(msg.as_slice());
            Err(CommandResult::error(text.as_str(), 1))
        },
    }
}

/// Whether some argument asks `tail` to follow: `-f`, `-F` or `--follow`.
pub open spec fn asks_to_follow(args: Seq<Seq<char>>) -> bool {
    exists|k: int|
        0 <= k < args.len() && (#[trigger] args[k] == "-f"@ || args[k] == "-F"@ || args[k]
            == "--follow"@)
}

/// `tail`'s request: refused when asked to follow, since there is no live
/// file to follow; otherwise a filter over one file.
pub fn tail_request(args: &[Arg]) -> (r: Result<(Vec<String>, String), CommandResult>)
    ensures
        asks_to_follow(arg_views(args@)) ==> (r matches Err(res) && res.stderr@
            == "tail: -f/-F (follow) is not supported\n"@ && res.exit_code == 1),
        !asks_to_follow(arg_views(args@)) ==> match r {
            Ok((flags, file)) => flags_and_file(arg_views(args@)) == Ok::<
                (Seq<Seq<char>>, Seq<char>),
                Seq<char>,
            >((string_views(flags@), file@)),
            Err(res) => {
                &&& flags_and_file(arg_views(args@)) is Err
                &&& res.stderr@ == tool_error("tail"@, flags_and_file(arg_views(args@))->Err_0)
                &&& res.stdout@.len() == 0
                &&& res.exit_code == 1
            },
        },
{
    let ghost av = arg_views(args@);
    let mut i: usize = 0;
    while i < args.len()
        invariant
            av == arg_views(args@),
            i <= args@.len(),
            forall|k: int|
                0 <= k < i ==> !(#[trigger] av[k] == "-f"@ || av[k] == "-F"@ || av[k]
                    == "--follow"@),
        decreases args.len() - i,
    {
        let a = args[i].as_str();
        assert(a@ == av[i as int]);
        if str_eq(a, "-f") || str_eq(a, "-F") || str_eq(a, "--follow") {
            return Err(CommandResult::error("tail: -f/-F (follow) is not supported\n", 1));
        }
        i = i + 1;
    }
    filter_request("tail", args)
}

/// Whether some argument asks `date` to set the clock: `-s` or anything
/// starting with `--set`.
pub open spec fn asks_to_set_clock(args: Seq<Seq<char>>) -> bool {
    exists|k: int| 0 <= k < args.len() && (#[trigger] args[k] == "-s"@ || has_prefix(args[k], "--set"@))
}

/// `date`'s request: refused when asked to set the host clock; otherwise
/// every argument is handed to the date filter as a flag.
pub fn date_request(args: &[Arg]) -> (r: Result<Vec<String>, CommandResult>)
    ensures
        asks_to_set_clock(arg_views(args@)) <==> r is Err,
        r matches Err(res) ==> res.stderr@ == "date: setting the system clock is not supported\n"@
            && res.stdout@.len() == 0 && res.exit_code == 1,
        r matches Ok(flags) ==> string_views(flags@) == arg_views(args@),
{
    let ghost av = arg_views(args@);
    let set_prefix = chars_of("--set");
    let mut flags: Vec<String> = Vec::new();
    let mut i: usize = 0;
    while i < args.len()
        invariant
            av == arg_views(args@),
            set_prefix@ == "--set"@,
            i <= args@.len(),
            flags@.len() == i,
            forall|k: int| 0 <= k < i ==> #[trigger] flags@[k]@ == av[k],
            forall|k: int| 0 <= k < i ==> !(#[trigger] av[k] == "-s"@ || has_prefix(av[k], "--set"@)),
        decreases args.len() - i,
    {
        let a = chars_of(args[i].as_str());
        assert(a@ == av[i as int]);
        if str_eq(args[i].as_str(), "-s") || starts_with(a.as_slice(), set_prefix.as_slice()) {
            return Err(CommandResult::error("date: setting the system clock is not supported\n", 1));
        }
        let item = args[i].0.clone();
        flags.push(item);
        i = i + 1;
    }
    assert(string_views(flags@) =~= av);
    Ok(flags)
}

#[verifier::external_type_specification]
#[verifier::external_body]
pub struct ExRegex(regex::Regex);

/// Why `regex` refuses `pattern`, as its error's `Display` words it, or
/// `None` when the pattern compiles.
pub uninterp spec fn regex_compile_error(pattern: Seq<char>) -> Option<Seq<char>>;

/// Whether the regular expression `pattern`, compiled by `regex`, matches
/// somewhere in `haystack`.
pub uninterp spec fn regex_is_match(pattern: Seq<char>, haystack: Seq<char>) -> bool;

/// Calls `regex::Regex::new`. The contract names the outcome: compiled, or
/// the error's message.
#[verifier::external_body]
fn compile_regex(pattern: &str) -> (r: Result<regex::Regex, String>)
    ensures
        match r {
            Ok(_) => regex_compile_error(pattern@) is None,
            Err(m) => regex_compile_error(pattern@) == Some(m@),
        },
{
    match regex::Regex::new(pattern) {
        Ok(re) => Ok(re),
        Err(e) => Err(e.to_string()),
    }
}

/// A regular expression together with the pattern it was compiled from.
pub struct CompiledPattern {
    source: String,
    re: regex::Regex,
}

impl CompiledPattern {
    /// The pattern the expression was compiled from.
    pub closed spec fn source_view(&self) -> Seq<char> {
        self.source@
    }

    /// Compiles `pattern`, or gives `regex`'s message for why it cannot.
    pub fn compile(pattern: String) -> (r: Result<CompiledPattern, String>)
        ensures
            match r {
                Ok(p) => regex_compile_error(pattern@) is None && p.source_view() == pattern@,
                Err(m) => regex_compile_error(pattern@) == Some(m@),
            },
    {
        match compile_regex(pattern.as_str()) {
            Ok(re) => Ok(CompiledPattern { source: pattern, re }),
            Err(m) => Err(m),
        }
    }
}

/// Calls `regex::Regex::is_match` on the expression compiled from the
/// pattern's source (the only way a `CompiledPattern` is made).
#[verifier::external_body]
fn pattern_matches(p: &CompiledPattern, line: &str) -> (b: bool)
    ensures
        b == regex_is_match(p.source_view(), line@),
{
    p.re.is_match(line)
}

/// The end of the line starting at `i`: the next `\n` at or after `i`, or
/// the end of `s`.
pub open spec fn next_newline(s: Seq<char>, i: int) -> int
    decreases s.len() - i,
{
    if i >= s.len() {
        s.len() as int
    } else if s[i] == '\n' {
        i
    } else {
        next_newline(s, i + 1)
    }
}

/// Where the line starting at `i` ends, and that no `\n` comes before.
pub proof fn lemma_next_newline(s: Seq<char>, i: int)
    requires
        0 <= i <= s.len(),
    ensures
        i <= next_newline(s, i) <= s.len(),
        next_newline(s, i) < s.len() ==> s[next_newline(s, i)] == '\n',
        forall|k: int| i <= k < next_newline(s, i) ==> s[k] != '\n',
    decreases s.len() - i,
{
    if i < s.len() && s[i] != '\n' {
        lemma_next_newline(s, i + 1);
    }
}

/// A line without the `\r` of a `\r\n` ending.
pub open spec fn strip_cr(l: Seq<char>) -> Seq<char> {
    if l.len() > 0 && l.last() == '\r' {
        l.drop_last()
    } else {
        l
    }
}

/// The lines of `s` from position `start`, as `str::lines` splits them:
/// at each `\n`, with a `\r` before it dropped and no empty line after a
/// final `\n`.
pub open spec fn lines_from(s: Seq<char>, start: int) -> Seq<Seq<char>>
    decreases s.len() - start,
{
    if start < 0 || start >= s.len() {
        Seq::empty()
    } else {
        let j = next_newline(s, start);
        proof {
            lemma_next_newline(s, start);
        }
        if j < s.len() {
            seq![strip_cr(s.subrange(start, j))] + lines_from(s, j + 1)
        } else {
            seq![s.subrange(start, j)]
        }
    }
}

/// Whether `grep` prints `line`: it matches, or it does not when inverted.
pub open spec fn grep_selects(pattern: Seq<char>, invert: bool, line: Seq<char>) -> bool {
    regex_is_match(pattern, line) != invert
}

/// What `grep` prints for line `i` of `lines`: when selected, its 1-based
/// number and a colon if asked, the line, and a newline; otherwise nothing.
pub open spec fn grep_line_output(
    lines: Seq<Seq<char>>,
    i: int,
    pattern: Seq<char>,
    invert: bool,
    numbers: bool,
) -> Seq<char> {
    if grep_selects(pattern, invert, lines[i]) {
        (if numbers {
            decimal((i + 1) as nat) + ":"@
        } else {
            Seq::empty()
        }) + lines[i] + "\n"@
    } else {
        Seq::empty()
    }
}

/// What `grep` prints for the first `n` lines of `lines`.
pub open spec fn grep_output(
    lines: Seq<Seq<char>>,
    n: int,
    pattern: Seq<char>,
    invert: bool,
    numbers: bool,
) -> Seq<char>
    decreases n,
{
    if n <= 0 {
        Seq::empty()
    } else {
        grep_output(lines, n - 1, pattern, invert, numbers) + grep_line_output(
            lines,
            n - 1,
            pattern,
            invert,
            numbers,
        )
    }
}

/// Whether some line is selected.
pub open spec fn grep_selects_any(lines: Seq<Seq<char>>, pattern: Seq<char>, invert: bool) -> bool {
    exists|k: int| 0 <= k < lines.len() && grep_selects(pattern, invert, #[trigger] lines[k])
}

/// A `grep` run ready to read its file: the compiled pattern, the options
/// and the file operand.
pub struct GrepRequest {
    pub pattern: CompiledPattern,
    pub show_line_numbers: bool,
    pub invert: bool,
    pub file: String,
}

/// The pattern `grep` compiles for `raw`: prefixed with `(?i)` under `-i`.
pub open spec fn grep_pattern(raw: Seq<char>, ignore_case: bool) -> Seq<char> {
    if ignore_case {
        "(?i)"@ + raw
    } else {
        raw
    }
}

/// How `grep`'s arguments are refused before any file is read, with the
/// message and exit code; `None` when they are accepted.
pub open spec fn grep_refusal(args: Seq<Seq<char>>) -> Option<(Seq<char>, i32)> {
    let ops = operands(args);
    let raw = grep_pattern(ops[0], flag_chars(args).contains('i'));
    if ops.len() == 0 {
        Some(("grep: missing pattern\n"@, 2))
    } else if ops.len() < 2 {
        Some(("grep: missing file operand (reading stdin is not supported)\n"@, 2))
    } else if ops.len() > 2 {
        Some(("grep: only a single file target is supported\n"@, 2))
    } else if regex_compile_error(raw) is Some {
        Some(("grep: invalid pattern: "@ + regex_compile_error(raw)->0 + "\n"@, 2))
    } else {
        None
    }
}

/// `grep [-i] [-n] [-v] PATTERN FILE`: parses the options (`-i` ignores
/// case, `-n` numbers lines, `-v` inverts; other flag letters are
/// ignored), checks for exactly one pattern and one file, and compiles the
/// pattern.
pub fn grep_request(args: &[Arg]) -> (r: Result<GrepRequest, CommandResult>)
    ensures
        match r {
            Ok(req) => {
                let av = arg_views(args@);
                &&& grep_refusal(av) is None
                &&& req.pattern.source_view() == grep_pattern(
                    operands(av)[0],
                    flag_chars(av).contains('i'),
                )
                &&& req.show_line_numbers == flag_chars(av).contains('n')
                &&& req.invert == flag_chars(av).contains('v')
                &&& req.file@ == operands(av)[1]
            },
            Err(res) => {
                &&& grep_refusal(arg_views(args@)) == Some((res.stderr@, res.exit_code))
                &&& res.stdout@.len() == 0
            },
        },
{
    let ghost av = arg_views(args@);
    let (flags, ops) = short_flags(args);
    let ignore_case = contains_char(flags.as_slice(), 'i');
    let show_line_numbers = contains_char(flags.as_slice(), 'n');
    let invert = contains_char(flags.as_slice(), 'v');
    assert(ops@.len() == operands(av).len());
    if ops.len() == 0 {
        return Err(CommandResult::error("grep: missing pattern\n", 2));
    }
    if ops.len() < 2 {
        return Err(
            CommandResult::error("grep: missing file operand (reading stdin is not supported)\n", 2),
        );
    }
    if ops.len() > 2 {
        return Err(CommandResult::error("grep: only a single file target is supported\n", 2));
    }
    assert(ops@[0]@ == operands(av)[0]);
    assert(ops@[1]@ == operands(av)[1]);
    let mut pat: Vec<char> = Vec::new();
    if ignore_case {
        push_str(&mut pat, "(?i)");
    }
    push_str(&mut pat, ops[0].as_str());
    let pattern_text = string_from_chars(pat.as_slice());
    match CompiledPattern::compile(pattern_text) {
        Ok(pattern) => Ok(
            GrepRequest { pattern, show_line_numbers, invert, file: ops[1].clone() },
        ),
        Err(m) => {
            let mut msg = chars_of("grep: invalid pattern: ");
            push_str(&mut msg, m.as_str());
            push_str(&mut msg, "\n");
            let text = string_from_chars(msg.as_slice());
            Err(CommandResult::error(text.as_str(), 2))
        },
    }
}

/// The line starting at `start`, and where the next one starts.
pub(crate) fn next_line(s: &Vec<char>, start: usize) -> (r: (Vec<char>, usize))
    requires
        start < s@.len(),
    ensures
        start < r.1 <= s@.len(),
        lines_from(s@, start as int) == seq![r.0@] + lines_from(s@, r.1 as int),
{
    let n = s.len();
    let mut j: usize = start;
    while j < n && s[j] != '\n'
        invariant
            n == s@.len(),
            start <= j <= n,
            next_newline(s@, start as int) == next_newline(s@, j as int),
        decreases n - j,
    {
        j = j + 1;
    }
    proof {
        lemma_next_newline(s@, start as int);
    }
    let mut end: usize = j;
    if j < n && j > start && s[j - 1] == '\r' {
        end = j - 1;
    }
    let mut line: Vec<char> = Vec::new();
    let mut k: usize = start;
    while k < end
        invariant
            start <= k <= end <= n,
            n == s@.len(),
            line@ == s@.subrange(start as int, k as int),
        decreases end - k,
    {
        line.push(s[k]);
        k = k + 1;
        assert(line@ =~= s@.subrange(start as int, k as int));
    }
    if j < n {
        assert(strip_cr(s@.subrange(start as int, j as int)) =~= line@);
        (line, j + 1)
    } else {
        assert(lines_from(s@, n as int) =~= Seq::<Seq<char>>::empty());
        assert(lines_from(s@, start as int) =~= seq![line@] + lines_from(s@, n as int));
        (line, n)
    }
}

/// Runs a `grep` request over the text of its file: the selected lines,
/// exit code 0 when some line was selected and 1 otherwise.
pub fn grep_text(req: &GrepRequest, text: &str) -> (r: CommandResult)
    ensures
        ({
            let lines = lines_from(text@, 0);
            let p = req.pattern.source_view();
            &&& r.stdout@ == grep_output(lines, lines.len() as int, p, req.invert, req.show_line_numbers)
            &&& r.stderr@.len() == 0
            &&& r.exit_code == (if grep_selects_any(lines, p, req.invert) { 0i32 } else { 1i32 })
        }),
{
    let s = chars_of(text);
    let n = s.len();
    let ghost lines = lines_from(s@, 0);
    let ghost p = req.pattern.source_view();
    let ghost done: Seq<Seq<char>> = Seq::empty();
    let mut out: Vec<char> = Vec::new();
    let mut matched_any = false;
    let mut idx: usize = 0;
    let mut start: usize = 0;
    assert(lines =~= done + lines_from(s@, 0));
    while start < n
        invariant
            n == s@.len(),
            s@ == text@,
            lines == lines_from(s@, 0),
            p == req.pattern.source_view(),
            start <= n,
            done.len() == idx,
            idx <= start,
            lines == done + lines_from(s@, start as int),
            out@ == grep_output(lines, idx as int, p, req.invert, req.show_line_numbers),
            matched_any == (exists|k: int| 0 <= k < idx && grep_selects(p, req.invert, #[trigger] lines[k])),
        decreases n - start,
    {
        let (line, next) = next_line(&s, start);
        let ghost this_line = line@;
        proof {
            assert(lines =~= done.push(this_line) + lines_from(s@, next as int));
            assert(lines[idx as int] == this_line);
        }
        let line_text = string_from_chars(line.as_slice());
        let selected = pattern_matches(&req.pattern, line_text.as_str()) != req.invert;
        if selected {
            if req.show_line_numbers {
                let num = decimal_text(idx + 1);
                push_all(&mut out, num.as_slice());
                push_str(&mut out, ":");
            }
            push_all(&mut out, line.as_slice());
            push_str(&mut out, "\n");
            matched_any = true;
        }
        proof {
            done = done.push(this_line);
        }
        idx = idx + 1;
        start = next;
        assert(out@ =~= grep_output(lines, idx as int, p, req.invert, req.show_line_numbers));
    }
    assert(lines_from(s@, start as int) =~= Seq::<Seq<char>>::empty());
    assert(lines =~= done);
    let stdout = string_from_chars(out.as_slice());
    CommandResult {
        stdout,
        stderr: String::new(),
        exit_code: if matched_any { 0 } else { 1 },
    }
}


/// Runs a coreutils filter: the host spawns `safeshell-NAME` with `flags`
/// as its only arguments and `stdin_bytes` on its standard input, and
/// hands back what it printed and its exit code.
pub trait FilterRunner {
    fn run_filter(&self, name: &str, flags: &[String], stdin_bytes: &[u8]) -> (String, String, i32);
}

/// What a filter over one file reports before it runs: a refusal of its
/// arguments, or a file operand that does not resolve.
pub open spec fn filter_refusal(tool: Seq<char>, cwd: Seq<char>, args: Seq<Seq<char>>) -> Option<Seq<char>> {
    match flags_and_file(args) {
        Err(m) => Some(tool_error(tool, m)),
        Ok((_, file)) => match resolved_arg(cwd, file) {
            Err(m) => Some(tool_error(tool, m)),
            Ok(_) => None,
        },
    }
}

/// Runs the filter `tool` over the bytes of the one file operand, with the
/// other arguments as its flags.
fn run_uutils_filter_on_one_file<R: LayeredView, F: FilterRunner>(
    tool: &str,
    session: &TerminalSession,
    resolver: &R,
    filters: &F,
    args: &[Arg],
) -> (r: CommandResult)
    ensures
        filter_refusal(tool@, session.cwd_view(), arg_views(args@)) matches Some(m) ==> r.stderr@ == m
            && r.stdout@.len() == 0 && r.exit_code == 1,
{
    let (flags, file_raw) = match filter_request(tool, args) {
        Ok(v) => v,
        Err(e) => return e,
    };
    let target = match resolve_arg(session.cwd(), file_raw.as_str()) {
        Ok(p) => p,
        Err(e) => {
            let mut msg = chars_of(tool);
            push_str(&mut msg, ": ");
            push_str(&mut msg, e.as_str());
            push_str(&mut msg, "\n");
            let text = string_from_chars(msg.as_slice());
            return CommandResult::error(text.as_str(), 1);
        },
    };
    let bytes = match resolver.read_file(target.as_str()) {
        Ok(b) => b,
        Err(e) => {
            let mut msg = chars_of(tool);
            push_str(&mut msg, ": ");
            push_str(&mut msg, file_raw.as_str());
            push_str(&mut msg, ": ");
            push_str(&mut msg, e.message.as_str());
            push_str(&mut msg, "\n");
            let text = string_from_chars(msg.as_slice());
            return CommandResult::error(text.as_str(), 1);
        },
    };
    let (stdout, stderr, exit_code) = filters.run_filter(tool, flags.as_slice(), bytes.as_slice());
    CommandResult { stdout, stderr, exit_code }
}

/// `wc [FLAGS] FILE`.
pub fn cmd_wc<R: LayeredView, F: FilterRunner>(session: &TerminalSession, resolver: &R, filters: &F, args: &[Arg]) -> (r: CommandResult)
    ensures
        filter_refusal("wc"@, session.cwd_view(), arg_views(args@)) matches Some(m) ==> r.stderr@ == m
            && r.stdout@.len() == 0 && r.exit_code == 1,
{
    run_uutils_filter_on_one_file("wc", session, resolver, filters, args)
}

/// `sort [FLAGS] FILE`.
pub fn cmd_sort<R: LayeredView, F: FilterRunner>(session: &TerminalSession, resolver: &R, filters: &F, args: &[Arg]) -> (r: CommandResult)
    ensures
        filter_refusal("sort"@, session.cwd_view(), arg_views(args@)) matches Some(m) ==> r.stderr@ == m
            && r.stdout@.len() == 0 && r.exit_code == 1,
{
    run_uutils_filter_on_one_file("sort", session, resolver, filters, args)
}

/// `uniq [FLAGS] FILE`.
pub fn cmd_uniq<R: LayeredView, F: FilterRunner>(session: &TerminalSession, resolver: &R, filters: &F, args: &[Arg]) -> (r: CommandResult)
    ensures
        filter_refusal("uniq"@, session.cwd_view(), arg_views(args@)) matches Some(m) ==> r.stderr@ == m
            && r.stdout@.len() == 0 && r.exit_code == 1,
{
    run_uutils_filter_on_one_file("uniq", session, resolver, filters, args)
}

/// `cut [FLAGS] FILE`.
pub fn cmd_cut<R: LayeredView, F: FilterRunner>(session: &TerminalSession, resolver: &R, filters: &F, args: &[Arg]) -> (r: CommandResult)
    ensures
        filter_refusal("cut"@, session.cwd_view(), arg_views(args@)) matches Some(m) ==> r.stderr@ == m
            && r.stdout@.len() == 0 && r.exit_code == 1,
{
    run_uutils_filter_on_one_file("cut", session, resolver, filters, args)
}

/// `head [FLAGS] FILE`.
pub fn cmd_head<R: LayeredView, F: FilterRunner>(session: &TerminalSession, resolver: &R, filters: &F, args: &[Arg]) -> (r: CommandResult)
    ensures
        filter_refusal("head"@, session.cwd_view(), arg_views(args@)) matches Some(m) ==> r.stderr@ == m
            && r.stdout@.len() == 0 && r.exit_code == 1,
{
    run_uutils_filter_on_one_file("head", session, resolver, filters, args)
}

/// `tail [FLAGS] FILE`, refusing to follow (there is no live file).
pub fn cmd_tail<R: LayeredView, F: FilterRunner>(session: &TerminalSession, resolver: &R, filters: &F, args: &[Arg]) -> (r: CommandResult)
    ensures
        asks_to_follow(arg_views(args@)) ==> r.stderr@ == "tail: -f/-F (follow) is not supported\n"@
            && r.exit_code == 1,
        !asks_to_follow(arg_views(args@)) ==> (filter_refusal("tail"@, session.cwd_view(), arg_views(args@))
            matches Some(m) ==> r.stderr@ == m && r.stdout@.len() == 0 && r.exit_code == 1),
{
    match tail_request(args) {
        Err(e) => e,
        Ok(_) => run_uutils_filter_on_one_file("tail", session, resolver, filters, args),
    }
}

/// `date [FORMAT/FLAGS]`, refusing to set the host clock; it reads no file.
pub fn cmd_date<F: FilterRunner>(filters: &F, args: &[Arg]) -> (r: CommandResult)
    ensures
        asks_to_set_clock(arg_views(args@)) ==> r.stderr@ == "date: setting the system clock is not supported\n"@
            && r.stdout@.len() == 0 && r.exit_code == 1,
{
    match date_request(args) {
        Err(e) => e,
        Ok(flags) => {
            let none: Vec<u8> = Vec::new();
            let (stdout, stderr, exit_code) = filters.run_filter("date", flags.as_slice(), none.as_slice());
            CommandResult { stdout, stderr, exit_code }
        },
    }
}

/// Whether `stdout` and `exit` are what `grep` with the accepted arguments
/// `args` answers over `text`: the selected lines, and exit code 0 when one
/// was selected, 1 otherwise.
pub open spec fn grep_answer(args: Seq<Seq<char>>, text: Seq<char>, stdout: Seq<char>, exit: i32) -> bool {
    let lines = lines_from(text, 0);
    let p = grep_pattern(operands(args)[0], flag_chars(args).contains('i'));
    let invert = flag_chars(args).contains('v');
    &&& stdout == grep_output(lines, lines.len() as int, p, invert, flag_chars(args).contains('n'))
    &&& exit == (if grep_selects_any(lines, p, invert) { 0i32 } else { 1i32 })
}

/// `grep [-i] [-n] [-v] PATTERN FILE`: the lines of the file's text that
/// match (or, under `-v`, do not); exit code 0 when one was printed, 1 when
/// none was, 2 for any error.
pub fn cmd_grep<R: LayeredView>(session: &TerminalSession, resolver: &R, args: &[Arg]) -> (r: CommandResult)
    ensures
        grep_refusal(arg_views(args@)) matches Some((m, code)) ==> r.stderr@ == m && r.exit_code == code
            && r.stdout@.len() == 0,
        grep_refusal(arg_views(args@)) is None ==> (resolved_arg(session.cwd_view(), operands(arg_views(args@))[1])
            matches Err(m) ==> r.stderr@ == "grep: "@ + m + "\n"@ && r.exit_code == 2 && r.stdout@.len() == 0),
        r.exit_code == 0 || r.exit_code == 1 || r.exit_code == 2,
        r.exit_code != 2 ==> r.stderr@.len() == 0,
        r.exit_code != 2 ==> exists|b: Seq<u8>|
            #[trigger] grep_answer(arg_views(args@), text_of_bytes(b), r.stdout@, r.exit_code),
{
    let req = match grep_request(args) {
        Ok(q) => q,
        Err(e) => return e,
    };
    let target = match resolve_arg(session.cwd(), req.file.as_str()) {
        Ok(p) => p,
        Err(e) => {
            let mut msg = chars_of("grep: ");
            push_str(&mut msg, e.as_str());
            push_str(&mut msg, "\n");
            let text = string_from_chars(msg.as_slice());
            return CommandResult::error(text.as_str(), 2);
        },
    };
    let bytes = match resolver.read_file(target.as_str()) {
        Ok(b) => b,
        Err(e) => {
            let mut msg = chars_of("grep: ");
            push_str(&mut msg, req.file.as_str());
            push_str(&mut msg, ": ");
            push_str(&mut msg, e.message.as_str());
            push_str(&mut msg, "\n");
            let text = string_from_chars(msg.as_slice());
            return CommandResult::error(text.as_str(), 2);
        },
    };
    let text = text_from_bytes(bytes.as_slice());
    let r = grep_text(&req, text.as_str());
    assert(grep_answer(arg_views(args@), text_of_bytes(bytes@), r.stdout@, r.exit_code));
    r
}

} // verus!
