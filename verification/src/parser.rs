//! Parser for SafeShell's restricted command grammar: simple commands,
//! quoting, pipelines, redirection, sequencing, and environment variable
//! expansion. Anything outside the grammar (command substitution, here
//! documents, background jobs, process substitution) is rejected, never
//! approximated.

use vstd::prelude::*;
use vstd::hash_map::StringHashMap;
use crate::text::{is_space, unicode_alphanumeric, is_alphanumeric, is_whitespace, string_from_chars, chars_of};
use crate::text::{decimal, decimal_text, push_all, push_str};

verus! {

/// One argument word of a command, after quoting and expansion.
#[derive(Debug, Clone, PartialEq, Eq)]
pub struct Arg(pub String);

impl Arg {
    /// The argument's text.
    pub fn as_str(&self) -> (s: &str)
        ensures
            s@ == self.0@,
    {
        self.0.as_str()
    }
}

/// The three redirection operators: `>`, `>>` and `<`.
#[derive(Debug, Clone, Copy, PartialEq, Eq, Structural)]
pub enum RedirectionKind {
    Truncate,
    Append,
    Input,
}

/// A redirection of a command's output or input.
#[derive(Debug, Clone, PartialEq, Eq)]
pub struct Redirection {
    pub kind: RedirectionKind,
    pub target: String,
}

/// One simple command, possibly the head of a pipeline whose later stages
/// hang off `pipeline_next`.
#[derive(Debug, PartialEq, Eq)]
pub struct ParsedCommand {
    pub name: String,
    pub args: Vec<Arg>,
    pub redirections: Vec<Redirection>,
    pub pipeline_next: Option<Box<ParsedCommand>>,
}

/// What joins a pipeline to the next one on the line: `&&` or `;`.
#[derive(Debug, Clone, Copy, PartialEq, Eq, Structural)]
pub enum Connector {
    And,
    Sequence,
}

/// A whole command line: pipelines, each followed by its connector (the
/// last one by none).
#[derive(Debug, PartialEq, Eq)]
pub struct CommandLine {
    pub segments: Vec<(ParsedCommand, Option<Connector>)>,
}

/// Why a line was rejected.
#[derive(Debug, Clone, PartialEq, Eq)]
pub enum ParseError {
    EmptyInput,
    UnterminatedQuote(&'static str),
    UnsupportedConstruct { construct: &'static str, position: usize },
    ExpectedCommandBefore(String),
    RedirectionMissingTarget { operator: &'static str },
    ExpectedCommandAfter { connector: &'static str },
    BadVariableSyntax(usize),
}

/// The variables visible to `$NAME` expansion, with the names that are
/// set, each once.
pub struct Env {
    vars: StringHashMap<String>,
    names: Vec<String>,
}

impl View for Env {
    type V = Map<Seq<char>, Seq<char>>;

    closed spec fn view(&self) -> Map<Seq<char>, Seq<char>> {
        self.vars@.map_values(|v: String| v@)
    }
}

impl Env {
    /// The names that are set, in the order they were first set.
    pub closed spec fn names_view(&self) -> Seq<Seq<char>> {
        self.names@.map_values(|s: String| s@)
    }

    /// Every name is listed once, and exactly the set names are listed.
    #[verifier::type_invariant]
    closed spec fn names_match(self) -> bool {
        &&& forall|i: int, j: int|
            0 <= i < j < self.names@.len() ==> #[trigger] self.names@[i]@ != #[trigger] self.names@[j]@
        &&& forall|k: Seq<char>| #[trigger]
            self.vars@.contains_key(k) <==> self.names@.map_values(|s: String| s@).contains(k)
    }

    /// An environment with no variables.
    pub fn new() -> (e: Env)
        ensures
            e@ == Map::<Seq<char>, Seq<char>>::empty(),
            e.names_view().len() == 0,
    {
        let e = Env { vars: StringHashMap::new(), names: Vec::new() };
        assert(e@ =~= Map::<Seq<char>, Seq<char>>::empty());
        assert(e.names_view() =~= Seq::<Seq<char>>::empty());
        e
    }

    fn with_var(self, name: String, value: String) -> (e: Env)
        ensures
            e@ == self@.insert(name@, value@),
            e.names_view() == (if self@.contains_key(name@) {
                self.names_view()
            } else {
                self.names_view().push(name@)
            }),
    {
        proof {
            use_type_invariant(&self);
        }
        let Env { mut vars, mut names } = self;
        let ghost old_vars = vars@;
        let ghost old_names = names@;
        let known = vars.contains_key(name.as_str());
        if !known {
            let n = name.clone();
            names.push(n);
            proof {
                assert(old_names.map_values(|s: String| s@).push(name@) =~= names@.map_values(
                    |s: String| s@,
                ));
                assert forall|i: int, j: int|
                    0 <= i < j < names@.len() implies #[trigger] names@[i]@ != #[trigger] names@[j]@ by {
                    if j == names@.len() - 1 {
                        assert(old_names.map_values(|s: String| s@)[i] == names@[i]@);
                    }
                }
            }
        }
        let ghost name_view = name@;
        vars.insert(name, value);
        proof {
            assert forall|k: Seq<char>| #[trigger] vars@.contains_key(k) <==> names@.map_values(
                |s: String| s@,
            ).contains(k) by {
                if k == name_view {
                    if known {
                        assert(old_vars.contains_key(k));
                        assert(old_names.map_values(|s: String| s@).contains(k));
                    } else {
                        assert(names@.map_values(|s: String| s@)[names@.len() - 1] == k);
                    }
                } else {
                    assert(vars@.contains_key(k) == old_vars.contains_key(k));
                    if known {
                        assert(names@ == old_names);
                    } else {
                        let ov = old_names.map_values(|s: String| s@);
                        let nv = names@.map_values(|s: String| s@);
                        assert(nv == ov.push(name_view));
                        if ov.contains(k) {
                            let i = choose|i: int| 0 <= i < ov.len() && #[trigger] ov[i] == k;
                            assert(nv[i] == k);
                        }
                        if nv.contains(k) {
                            let i = choose|i: int| 0 <= i < nv.len() && #[trigger] nv[i] == k;
                            assert(i < ov.len());
                            assert(ov[i] == k);
                        }
                    }
                }
            }
        }
        let e = Env { vars, names };
        assert(e@ =~= self@.insert(name@, value@));
        e
    }

    /// Sets `name` to `value`, replacing any earlier value.
    pub fn set(&mut self, name: String, value: String)
        ensures
            final(self)@ == old(self)@.insert(name@, value@),
            final(self).names_view() == (if old(self)@.contains_key(name@) {
                old(self).names_view()
            } else {
                old(self).names_view().push(name@)
            }),
    {
        let mut current = Env::new();
        std::mem::swap(self, &mut current);
        let mut updated = current.with_var(name, value);
        std::mem::swap(self, &mut updated);
    }

    /// The value of `name`, if set.
    pub fn get(&self, name: &str) -> (r: Option<String>)
        ensures
            match r {
                Some(v) => self@.contains_key(name@) && v@ == self@[name@],
                None => !self@.contains_key(name@),
            },
    {
        match self.vars.get(name) {
            Some(v) => Some(v.clone()),
            None => None,
        }
    }

    /// The names that are set, each once, in the order they were first
    /// set.
    pub fn names(&self) -> (r: Vec<String>)
        ensures
            r@.map_values(|s: String| s@) == self.names_view(),
            self.names_view().no_duplicates(),
            forall|k: Seq<char>| #[trigger] self@.contains_key(k) <==> self.names_view().contains(k),
    {
        proof {
            use_type_invariant(self);
            assert forall|i: int, j: int|
                0 <= i < self.names_view().len() && 0 <= j < self.names_view().len() && i != j implies
                self.names_view()[i] != self.names_view()[j] by {
                if i < j {
                    assert(self.names@[i]@ != self.names@[j]@);
                } else {
                    assert(self.names@[j]@ != self.names@[i]@);
                }
            }
            assert forall|k: Seq<char>| #[trigger] self@.contains_key(k) <==> self.names_view().contains(k) by {
                assert(self@.contains_key(k) == self.vars@.contains_key(k));
            }
        }
        let mut out: Vec<String> = Vec::new();
        let mut i: usize = 0;
        while i < self.names.len()
            invariant
                i <= self.names@.len(),
                out@.len() == i,
                forall|k: int| 0 <= k < i ==> #[trigger] out@[k]@ == self.names@[k]@,
            decreases self.names.len() - i,
        {
            out.push(self.names[i].clone());
            i = i + 1;
        }
        assert(out@.map_values(|s: String| s@) =~= self.names_view());
        out
    }
}

impl Clone for Env {
    fn clone(&self) -> (e: Self)
        ensures
            e@ == self@,
    {
        let names = self.names();
        let ghost nv = self.names_view();
        let mut e = Env::new();
        let mut i: usize = 0;
        while i < names.len()
            invariant
                names@.map_values(|s: String| s@) == nv,
                nv == self.names_view(),
                nv.no_duplicates(),
                forall|k: Seq<char>| #[trigger] self@.contains_key(k) <==> nv.contains(k),
                i <= names@.len(),
                e@ == self@.restrict(nv.take(i as int).to_set()),
            decreases names.len() - i,
        {
            let name = names[i].clone();
            assert(nv[i as int] == name@);
            assert(nv.contains(name@));
            let value = self.get(name.as_str());
            match value {
                Some(v) => {
                    let ghost before = e@;
                    e.set(name, v);
                    assert forall|a: Seq<char>| #[trigger] nv.take(i + 1).contains(a) <==> (nv.take(
                        i as int,
                    ).contains(a) || a == nv[i as int]) by {
                        if nv.take(i + 1).contains(a) {
                            let j = choose|j: int| 0 <= j < i + 1 && #[trigger] nv.take(i + 1)[j] == a;
                            if j < i {
                                assert(nv.take(i as int)[j] == a);
                            }
                        }
                        if nv.take(i as int).contains(a) {
                            let j = choose|j: int| 0 <= j < i && #[trigger] nv.take(i as int)[j] == a;
                            assert(nv.take(i + 1)[j] == a);
                        }
                        if a == nv[i as int] {
                            assert(nv.take(i + 1)[i as int] == a);
                        }
                    }
                    assert(nv.take(i + 1).to_set() =~= nv.take(i as int).to_set().insert(nv[i as int]));
                    assert(e@ =~= self@.restrict(nv.take(i + 1).to_set()));
                },
                None => {
                    assert(false);
                },
            }
            i = i + 1;
        }
        assert(nv.take(i as int) =~= nv);
        assert(e@ =~= self@);
        e
    }
}

/// What `$name` expands to: the variable's value, or nothing when unset.
pub open spec fn env_value(env: Map<Seq<char>, Seq<char>>, name: Seq<char>) -> Seq<char> {
    if env.contains_key(name) {
        env[name]
    } else {
        Seq::empty()
    }
}

// ---------------------------------------------------------------------
// The model: tokens, stages and failures as mathematical values.
// ---------------------------------------------------------------------

/// A lexical token of the grammar.
pub enum Tok {
    Word(Seq<char>),
    Pipe,
    Redirect(RedirectionKind),
    And,
    Semicolon,
}

/// One stage of a pipeline: command name, arguments, redirections.
pub struct Stage {
    pub name: Seq<char>,
    pub args: Seq<Seq<char>>,
    pub redirections: Seq<(RedirectionKind, Seq<char>)>,
}

/// A rejection, with its text fields as character sequences.
pub enum Failure {
    EmptyInput,
    UnterminatedQuote(Seq<char>),
    UnsupportedConstruct(Seq<char>, int),
    ExpectedCommandBefore(Seq<char>),
    RedirectionMissingTarget(Seq<char>),
    ExpectedCommandAfter(Seq<char>),
    BadVariableSyntax(int),
}

impl ParseError {
    pub open spec fn view(&self) -> Failure {
        match self {
            ParseError::EmptyInput => Failure::EmptyInput,
            ParseError::UnterminatedQuote(q) => Failure::UnterminatedQuote(q@),
            ParseError::UnsupportedConstruct { construct, position } => Failure::UnsupportedConstruct(
                construct@,
                *position as int,
            ),
            ParseError::ExpectedCommandBefore(t) => Failure::ExpectedCommandBefore(t@),
            ParseError::RedirectionMissingTarget { operator } => Failure::RedirectionMissingTarget(
                operator@,
            ),
            ParseError::ExpectedCommandAfter { connector } => Failure::ExpectedCommandAfter(
                connector@,
            ),
            ParseError::BadVariableSyntax(p) => Failure::BadVariableSyntax(*p as int),
        }
    }

    /// The error as the terminal shows it.
    pub fn message(&self) -> (s: String)
        ensures
            s@ == failure_text(self.view()),
    {
        let mut out: Vec<char> = Vec::new();
        match self {
            ParseError::EmptyInput => push_str(&mut out, "empty command"),
            ParseError::UnterminatedQuote(q) => {
                push_str(&mut out, "unterminated ");
                push_str(&mut out, q);
                push_str(&mut out, " quote");
            },
            ParseError::UnsupportedConstruct { construct, position } => {
                push_str(&mut out, "unsupported construct: ");
                push_str(&mut out, construct);
                push_str(&mut out, " (at position ");
                let digits = decimal_text(*position);
                push_all(&mut out, &digits);
                push_str(
                    &mut out,
                    ") — SafeShell does not implement a general shell; this syntax is not translated or approximated",
                );
            },
            ParseError::ExpectedCommandBefore(t) => {
                push_str(&mut out, "expected a command before `");
                push_str(&mut out, t.as_str());
                push_str(&mut out, "`");
            },
            ParseError::RedirectionMissingTarget { operator } => {
                push_str(&mut out, "expected a single word as the redirection target after `");
                push_str(&mut out, operator);
                push_str(&mut out, "`");
            },
            ParseError::ExpectedCommandAfter { connector } => {
                push_str(&mut out, "expected a command after `");
                push_str(&mut out, connector);
                push_str(&mut out, "`");
            },
            ParseError::BadVariableSyntax(p) => {
                push_str(&mut out, "unknown environment variable syntax at position ");
                let digits = decimal_text(*p);
                push_all(&mut out, &digits);
            },
        }
        string_from_chars(out.as_slice())
    }
}

/// How the terminal words each reason a line is rejected.
pub open spec fn failure_text(f: Failure) -> Seq<char> {
    match f {
        Failure::EmptyInput => "empty command"@,
        Failure::UnterminatedQuote(q) => "unterminated "@ + q + " quote"@,
        Failure::UnsupportedConstruct(construct, position) => "unsupported construct: "@ + construct
            + " (at position "@ + decimal(position as nat)
            + ") — SafeShell does not implement a general shell; this syntax is not translated or approximated"@,
        Failure::ExpectedCommandBefore(t) => "expected a command before `"@ + t + "`"@,
        Failure::RedirectionMissingTarget(operator) =>
            "expected a single word as the redirection target after `"@ + operator + "`"@,
        Failure::ExpectedCommandAfter(connector) => "expected a command after `"@ + connector + "`"@,
        Failure::BadVariableSyntax(position) => "unknown environment variable syntax at position "@
            + decimal(position as nat),
    }
}

impl Redirection {
    pub open spec fn view(&self) -> (RedirectionKind, Seq<char>) {
        (self.kind, self.target@)
    }
}

impl ParsedCommand {
    /// This command alone, without the stages after it.
    pub open spec fn stage(&self) -> Stage {
        Stage {
            name: self.name@,
            args: self.args@.map_values(|a: Arg| a.0@),
            redirections: self.redirections@.map_values(|r: Redirection| r.view()),
        }
    }

    /// Every stage of the pipeline this command heads, in order.
    pub open spec fn stages(&self) -> Seq<Stage>
        decreases self,
    {
        match self.pipeline_next {
            Some(next) => seq![self.stage()] + next.stages(),
            None => seq![self.stage()],
        }
    }
}

impl CommandLine {
    pub open spec fn view(&self) -> Seq<(Seq<Stage>, Option<Connector>)> {
        self.segments@.map_values(|s: (ParsedCommand, Option<Connector>)| (s.0.stages(), s.1))
    }
}

/// Characters that end an unquoted word.
pub open spec fn is_boundary(c: char) -> bool {
    is_space(c) || c == '|' || c == '>' || c == '<' || c == ';' || c == '&'
}

/// The first position at or after `j` holding `c`, or `j` itself when `j`
/// is past the end, or the end when `c` never occurs.
pub open spec fn char_pos(w: Seq<char>, j: int, c: char) -> int
    decreases w.len() - j,
{
    if j >= w.len() {
        j
    } else if w[j] == c {
        j
    } else {
        char_pos(w, j + 1, c)
    }
}

/// The end of the variable name that starts at `j`: letters, digits, `_`.
pub open spec fn name_end(w: Seq<char>, j: int) -> int
    decreases w.len() - j,
{
    if j >= w.len() {
        j
    } else if unicode_alphanumeric(w[j]) || w[j] == '_' {
        name_end(w, j + 1)
    } else {
        j
    }
}

pub proof fn lemma_char_pos(w: Seq<char>, j: int, c: char)
    requires
        0 <= j <= w.len(),
    ensures
        j <= char_pos(w, j, c) <= w.len(),
        char_pos(w, j, c) < w.len() ==> w[char_pos(w, j, c)] == c,
        forall|k: int| j <= k < char_pos(w, j, c) ==> w[k] != c,
    decreases w.len() - j,
{
    if j < w.len() && w[j] != c {
        lemma_char_pos(w, j + 1, c);
    }
}

pub proof fn lemma_name_end(w: Seq<char>, j: int)
    requires
        0 <= j <= w.len(),
    ensures
        j <= name_end(w, j) <= w.len(),
    decreases w.len() - j,
{
    if j < w.len() && (unicode_alphanumeric(w[j]) || w[j] == '_') {
        lemma_name_end(w, j + 1);
    }
}

proof fn lemma_name_end_run(w: Seq<char>, j: int, n: int)
    requires
        1 <= j <= n <= w.len(),
        forall|k: int| j <= k < n ==> unicode_alphanumeric(#[trigger] w[k]) || w[k] == '_',
        n == w.len() || !(unicode_alphanumeric(w[n]) || w[n] == '_'),
    ensures
        name_end(w, j) == n,
    decreases n - j,
{
    if j < n {
        lemma_name_end_run(w, j + 1, n);
    }
}

/// Expanding the variable reference at the start of `w` (which begins with
/// `$`): the expansion and how many characters it used.
pub open spec fn expansion(w: Seq<char>, env: Map<Seq<char>, Seq<char>>) -> Result<
    (Seq<char>, int),
    Failure,
> {
    if w.len() > 1 && w[1] == '{' {
        let j = char_pos(w, 2, '}');
        if j >= w.len() {
            Err(Failure::BadVariableSyntax(0))
        } else {
            Ok((env_value(env, w.subrange(2, j)), j + 1))
        }
    } else {
        let j = name_end(w, 1);
        if j == 1 {
            Ok((seq!['$'], 1))
        } else {
            Ok((env_value(env, w.subrange(1, j)), j))
        }
    }
}

pub proof fn lemma_expansion_consumes(w: Seq<char>, env: Map<Seq<char>, Seq<char>>)
    requires
        w.len() >= 1,
    ensures
        expansion(w, env) matches Ok((_, n)) ==> 1 <= n <= w.len(),
{
    if w.len() > 1 && w[1] == '{' {
        lemma_char_pos(w, 2, '}');
    } else {
        lemma_name_end(w, 1);
    }
}

/// An unbraced `$NAME` takes as its name the longest run of letters,
/// digits and underscores after the `$`, and stands for that variable's
/// value: with `A_B=v` set, `$A_B` is `v`, not `$A` followed by `_B`.
pub proof fn lemma_unbraced_name_is_longest_run(w: Seq<char>, env: Map<Seq<char>, Seq<char>>, n: int)
    requires
        w.len() >= 2,
        w[0] == '$',
        w[1] != '{',
        1 < n <= w.len(),
        forall|k: int| 1 <= k < n ==> unicode_alphanumeric(#[trigger] w[k]) || w[k] == '_',
        n == w.len() || !(unicode_alphanumeric(w[n]) || w[n] == '_'),
    ensures
        expansion(w, env) == Ok::<(Seq<char>, int), Failure>((env_value(env, w.subrange(1, n)), n)),
{
    lemma_name_end_run(w, 1, n);
}

proof fn lemma_char_pos_first(w: Seq<char>, i: int, j: int, c: char)
    requires
        0 <= i <= j <= w.len(),
        forall|k: int| i <= k < j ==> #[trigger] w[k] != c,
        j == w.len() || w[j] == c,
    ensures
        char_pos(w, i, c) == j,
    decreases j - i,
{
    if i < j {
        lemma_char_pos_first(w, i + 1, j, c);
    }
}

/// `${NAME}` takes everything up to the first `}` as the name and stands
/// for that variable's value; without a closing `}` the reference is
/// refused; and a `$` followed by neither `{` nor a name character stays a
/// literal `$`.
pub proof fn lemma_braced_and_bare_dollar(w: Seq<char>, env: Map<Seq<char>, Seq<char>>, j: int)
    requires
        w.len() >= 1,
        w[0] == '$',
    ensures
        w.len() >= 2 && w[1] == '{' && 2 <= j < w.len() && w[j] == '}' && (forall|k: int| 2 <= k < j ==> #[trigger] w[k] != '}')
            ==> expansion(w, env) == Ok::<(Seq<char>, int), Failure>((env_value(env, w.subrange(2, j)), j + 1)),
        w.len() >= 2 && w[1] == '{' && (forall|k: int| 2 <= k < w.len() ==> #[trigger] w[k] != '}')
            ==> expansion(w, env) == Err::<(Seq<char>, int), Failure>(Failure::BadVariableSyntax(0)),
        (w.len() == 1 || (w[1] != '{' && !(unicode_alphanumeric(w[1]) || w[1] == '_')))
            ==> expansion(w, env) == Ok::<(Seq<char>, int), Failure>((seq!['$'], 1)),
{
    if w.len() >= 2 && w[1] == '{' && 2 <= j < w.len() && w[j] == '}' && (forall|k: int| 2 <= k < j ==> #[trigger] w[k] != '}') {
        lemma_char_pos_first(w, 2, j, '}');
    }
    if w.len() >= 2 && w[1] == '{' && (forall|k: int| 2 <= k < w.len() ==> #[trigger] w[k] != '}') {
        lemma_char_pos_first(w, 2, w.len() as int, '}');
    }
}

/// Reads a variable reference at `chars[start]`, which is `$`.
fn expand_variable(chars: &Vec<char>, start: usize, env: &Env) -> (r: Result<
    (String, usize),
    ParseError,
>)
    requires
        start < chars@.len(),
        chars@[start as int] == '$',
    ensures
        match (r, expansion(chars@.skip(start as int), env@)) {
            (Ok((v, n)), Ok((sv, sn))) => v@ == sv && n == sn,
            (Err(e), Err(f)) => e.view() == f,
            _ => false,
        },
{
    let ghost w = chars@.skip(start as int);
    let len = chars.len() - start;
    if len > 1 && chars[start + 1] == '{' {
        let mut j: usize = 2;
        while j < len && chars[start + j] != '}'
            invariant
                2 <= j <= len,
                len == w.len(),
                w == chars@.skip(start as int),
                start + len == chars@.len(),
                chars@.len() <= usize::MAX,
                char_pos(w, 2, '}') == char_pos(w, j as int, '}'),
            decreases len - j,
        {
            j = j + 1;
        }
        if j >= len {
            return Err(ParseError::BadVariableSyntax(0));
        }
        let name = string_from_chars(&chars.as_slice()[start + 2..start + j]);
        assert(name@ =~= w.subrange(2, j as int));
        let value = match env.get(name.as_str()) {
            Some(v) => v,
            None => String::new(),
        };
        Ok((value, j + 1))
    } else {
        let mut j: usize = 1;
        while j < len && (is_alphanumeric(chars[start + j]) || chars[start + j] == '_')
            invariant
                1 <= j <= len,
                len == w.len(),
                w == chars@.skip(start as int),
                start + len == chars@.len(),
                chars@.len() <= usize::MAX,
                name_end(w, 1) == name_end(w, j as int),
            decreases len - j,
        {
            j = j + 1;
        }
        if j == 1 {
            let d = string_from_chars(&['$']);
            assert(d@ =~= seq!['$']);
            return Ok((d, 1));
        }
        let name = string_from_chars(&chars.as_slice()[start + 1..start + j]);
        assert(name@ =~= w.subrange(1, j as int));
        let value = match env.get(name.as_str()) {
            Some(v) => v,
            None => String::new(),
        };
        Ok((value, j))
    }
}

/// Reading the inside of a double-quoted section of `w` from position `i`
/// (just after the opening quote): the text so far and the position after
/// the closing quote.
pub open spec fn double_quoted(
    w: Seq<char>,
    i: int,
    out: Seq<char>,
    env: Map<Seq<char>, Seq<char>>,
) -> Result<(Seq<char>, int), Failure>
    decreases w.len() - i,
{
    if i < 0 || i >= w.len() {
        Err(Failure::UnterminatedQuote("double"@))
    } else if w[i] == '"' {
        Ok((out, i + 1))
    } else if w[i] == '\\' && i + 1 < w.len() && (w[i + 1] == '"' || w[i + 1] == '\\' || w[i + 1]
        == '$') {
        double_quoted(w, i + 2, out.push(w[i + 1]), env)
    } else if w[i] == '`' {
        Err(Failure::UnsupportedConstruct("backtick command substitution"@, i))
    } else if w[i] == '$' && i + 1 < w.len() && w[i + 1] == '(' {
        Err(Failure::UnsupportedConstruct("$(...) command substitution"@, i))
    } else if w[i] == '$' {
        match expansion(w.skip(i), env) {
            Ok((v, n)) => {
                proof {
                    lemma_expansion_consumes(w.skip(i), env);
                }
                double_quoted(w, i + n, out + v, env)
            },
            Err(f) => Err(f),
        }
    } else {
        double_quoted(w, i + 1, out.push(w[i]), env)
    }
}

pub proof fn lemma_double_quoted_advances(
    w: Seq<char>,
    i: int,
    out: Seq<char>,
    env: Map<Seq<char>, Seq<char>>,
)
    ensures
        double_quoted(w, i, out, env) matches Ok((_, j)) ==> i < j <= w.len(),
    decreases w.len() - i,
{
    if i < 0 || i >= w.len() {
    } else if w[i] == '"' {
    } else if w[i] == '\\' && i + 1 < w.len() && (w[i + 1] == '"' || w[i + 1] == '\\' || w[i + 1]
        == '$') {
        lemma_double_quoted_advances(w, i + 2, out.push(w[i + 1]), env);
    } else if w[i] == '`' {
    } else if w[i] == '$' && i + 1 < w.len() && w[i + 1] == '(' {
    } else if w[i] == '$' {
        lemma_expansion_consumes(w.skip(i), env);
        match expansion(w.skip(i), env) {
            Ok((v, n)) => {
                lemma_double_quoted_advances(w, i + n, out + v, env);
            },
            Err(f) => {},
        }
    } else {
        lemma_double_quoted_advances(w, i + 1, out.push(w[i]), env);
    }
}

/// Reading one word of `w` from position `i`: quoting, escapes and
/// expansion applied, up to the first unquoted boundary character. Gives
/// the word and where it ended.
pub open spec fn word_from(
    w: Seq<char>,
    i: int,
    out: Seq<char>,
    env: Map<Seq<char>, Seq<char>>,
) -> Result<(Seq<char>, int), Failure>
    decreases w.len() - i,
{
    if i < 0 || i >= w.len() || is_boundary(w[i]) {
        Ok((out, i))
    } else if w[i] == '\'' {
        let j = char_pos(w, i + 1, '\'');
        if j >= w.len() {
            Err(Failure::UnterminatedQuote("single"@))
        } else {
            proof {
                lemma_char_pos(w, i + 1, '\'');
            }
            word_from(w, j + 1, out + w.subrange(i + 1, j), env)
        }
    } else if w[i] == '"' {
        match double_quoted(w, i + 1, out, env) {
            Ok((o, j)) => {
                proof {
                    lemma_double_quoted_advances(w, i + 1, out, env);
                }
                word_from(w, j, o, env)
            },
            Err(f) => Err(f),
        }
    } else if w[i] == '\\' {
        if i + 1 < w.len() {
            word_from(w, i + 2, out.push(w[i + 1]), env)
        } else {
            word_from(w, i + 1, out.push('\\'), env)
        }
    } else if w[i] == '$' {
        match expansion(w.skip(i), env) {
            Ok((v, n)) => {
                proof {
                    lemma_expansion_consumes(w.skip(i), env);
                }
                word_from(w, i + n, out + v, env)
            },
            Err(f) => Err(f),
        }
    } else {
        word_from(w, i + 1, out.push(w[i]), env)
    }
}

pub proof fn lemma_word_from_advances(
    w: Seq<char>,
    i: int,
    out: Seq<char>,
    env: Map<Seq<char>, Seq<char>>,
)
    requires
        0 <= i <= w.len(),
    ensures
        word_from(w, i, out, env) matches Ok((_, j)) ==> i <= j <= w.len() && (i < w.len()
            && !is_boundary(w[i]) ==> i < j),
    decreases w.len() - i,
{
    if i >= w.len() || is_boundary(w[i]) {
    } else if w[i] == '\'' {
        let j = char_pos(w, i + 1, '\'');
        lemma_char_pos(w, i + 1, '\'');
        if j < w.len() {
            lemma_word_from_advances(w, j + 1, out + w.subrange(i + 1, j), env);
        }
    } else if w[i] == '"' {
        lemma_double_quoted_advances(w, i + 1, out, env);
        match double_quoted(w, i + 1, out, env) {
            Ok((o, j)) => {
                lemma_word_from_advances(w, j, o, env);
            },
            Err(f) => {},
        }
    } else if w[i] == '\\' {
        if i + 1 < w.len() {
            lemma_word_from_advances(w, i + 2, out.push(w[i + 1]), env);
        } else {
            lemma_word_from_advances(w, i + 1, out.push('\\'), env);
        }
    } else if w[i] == '$' {
        lemma_expansion_consumes(w.skip(i), env);
        match expansion(w.skip(i), env) {
            Ok((v, n)) => {
                lemma_word_from_advances(w, i + n, out + v, env);
            },
            Err(f) => {},
        }
    } else {
        lemma_word_from_advances(w, i + 1, out.push(w[i]), env);
    }
}

/// Whether `c` ends an unquoted word.
fn is_word_boundary(c: char) -> (b: bool)
    ensures
        b == is_boundary(c),
{
    is_whitespace(c) || c == '|' || c == '>' || c == '<' || c == ';' || c == '&'
}

/// Reads the inside of a double-quoted section that begins (just after the
/// opening quote) at `chars[start + i]`, appending its text to `out`.
/// Returns the position, relative to `start`, after the closing quote.
fn scan_double_quoted(
    chars: &Vec<char>,
    start: usize,
    from: usize,
    out: &mut Vec<char>,
    env: &Env,
) -> (r: Result<usize, ParseError>)
    requires
        start <= chars@.len(),
        start + from <= chars@.len(),
    ensures
        match (r, double_quoted(chars@.skip(start as int), from as int, old(out)@, env@)) {
            (Ok(j), Ok((o, sj))) => final(out)@ == o && j == sj,
            (Err(e), Err(f)) => e.view() == f,
            _ => false,
        },
{
    let ghost w = chars@.skip(start as int);
    let ghost goal = double_quoted(w, from as int, out@, env@);
    let len = chars.len() - start;
    let mut i = from;
    loop
        invariant
            goal == double_quoted(chars@.skip(start as int), from as int, old(out)@, env@),
            w == chars@.skip(start as int),
            len == w.len(),
            start + len == chars@.len(),
            chars@.len() <= usize::MAX,
            i <= len,
            goal == double_quoted(w, i as int, out@, env@),
        decreases len - i,
    {
        if i >= len {
            return Err(ParseError::UnterminatedQuote("double"));
        }
        let c = chars[start + i];
        if c == '"' {
            return Ok(i + 1);
        }
        if c == '\\' && i + 1 < len && (chars[start + i + 1] == '"' || chars[start + i + 1] == '\\'
            || chars[start + i + 1] == '$') {
            out.push(chars[start + i + 1]);
            i = i + 2;
        } else if c == '`' {
            return Err(
                ParseError::UnsupportedConstruct {
                    construct: "backtick command substitution",
                    position: i,
                },
            );
        } else if c == '$' && i + 1 < len && chars[start + i + 1] == '(' {
            return Err(
                ParseError::UnsupportedConstruct {
                    construct: "$(...) command substitution",
                    position: i,
                },
            );
        } else if c == '$' {
            assert(chars@.skip((start + i) as int) =~= w.skip(i as int));
            proof {
                lemma_expansion_consumes(w.skip(i as int), env@);
            }
            let (value, consumed) = match expand_variable(chars, start + i, env) {
                Ok(p) => p,
                Err(e) => return Err(e),
            };
            let vc = chars_of(value.as_str());
            crate::text::push_all(out, vc.as_slice());
            i = i + consumed;
        } else {
            out.push(c);
            i = i + 1;
        }
    }
}

/// Reads one word that starts at `chars[start]`. Returns the word and the
/// number of characters it took.
fn scan_word(chars: &Vec<char>, start: usize, env: &Env) -> (r: Result<(String, usize), ParseError>)
    requires
        start <= chars@.len(),
    ensures
        match (r, word_from(chars@.skip(start as int), 0, Seq::empty(), env@)) {
            (Ok((word, n)), Ok((sw, sn))) => word@ == sw && n == sn,
            (Err(e), Err(f)) => e.view() == f,
            _ => false,
        },
{
    let ghost w = chars@.skip(start as int);
    let ghost goal = word_from(w, 0, Seq::empty(), env@);
    let len = chars.len() - start;
    let mut out: Vec<char> = Vec::new();
    let mut i: usize = 0;
    loop
        invariant
            goal == word_from(chars@.skip(start as int), 0, Seq::empty(), env@),
            w == chars@.skip(start as int),
            len == w.len(),
            start + len == chars@.len(),
            chars@.len() <= usize::MAX,
            i <= len,
            goal == word_from(w, i as int, out@, env@),
        decreases len - i,
    {
        if i >= len || is_word_boundary(chars[start + i]) {
            return Ok((string_from_chars(out.as_slice()), i));
        }
        let c = chars[start + i];
        if c == '\'' {
            let open = i + 1;
            let mut j = open;
            while j < len && chars[start + j] != '\''
                invariant
                    open <= j <= len,
                    open <= len,
                    w == chars@.skip(start as int),
                    len == w.len(),
                    start + len == chars@.len(),
                    chars@.len() <= usize::MAX,
                    char_pos(w, open as int, '\'') == char_pos(w, j as int, '\''),
                decreases len - j,
            {
                j = j + 1;
            }
            if j >= len {
                return Err(ParseError::UnterminatedQuote("single"));
            }
            let mut k = open;
            let ghost before = out@;
            while k < j
                invariant
                    open <= k <= j < len,
                    w == chars@.skip(start as int),
                    len == w.len(),
                    start + len == chars@.len(),
                    chars@.len() <= usize::MAX,
                    out@ == before + w.subrange(open as int, k as int),
                decreases j - k,
            {
                out.push(chars[start + k]);
                k = k + 1;
                assert(out@ =~= before + w.subrange(open as int, k as int));
            }
            i = j + 1;
        } else if c == '"' {
            let ghost before = out@;
            proof {
                lemma_double_quoted_advances(w, (i + 1) as int, out@, env@);
            }
            let next = scan_double_quoted(chars, start, i + 1, &mut out, env);
            match next {
                Ok(j) => {
                    i = j;
                },
                Err(e) => {
                    return Err(e);
                },
            }
        } else if c == '\\' {
            if i + 1 < len {
                out.push(chars[start + i + 1]);
                i = i + 2;
            } else {
                out.push('\\');
                i = i + 1;
            }
        } else if c == '$' {
            assert(chars@.skip((start + i) as int) =~= w.skip(i as int));
            proof {
                lemma_expansion_consumes(w.skip(i as int), env@);
            }
            let (value, consumed) = match expand_variable(chars, start + i, env) {
                Ok(p) => p,
                Err(e) => return Err(e),
            };
            let vc = chars_of(value.as_str());
            crate::text::push_all(&mut out, vc.as_slice());
            i = i + consumed;
        } else {
            out.push(c);
            i = i + 1;
        }
    }
}

/// Splitting the characters of a line, from position `i`, into tokens
/// (appended to `acc`).
pub open spec fn tokens_from(
    s: Seq<char>,
    i: int,
    acc: Seq<Tok>,
    env: Map<Seq<char>, Seq<char>>,
) -> Result<Seq<Tok>, Failure>
    decreases s.len() - i,
{
    if i < 0 || i >= s.len() {
        Ok(acc)
    } else if is_space(s[i]) {
        tokens_from(s, i + 1, acc, env)
    } else if s[i] == '<' && i + 1 < s.len() && s[i + 1] == '<' {
        Err(Failure::UnsupportedConstruct("here-document (<<)"@, i))
    } else if (s[i] == '<' || s[i] == '>') && i + 1 < s.len() && s[i + 1] == '(' {
        Err(Failure::UnsupportedConstruct("process substitution"@, i))
    } else if s[i] == '`' {
        Err(Failure::UnsupportedConstruct("backtick command substitution"@, i))
    } else if s[i] == '$' && i + 1 < s.len() && s[i + 1] == '(' {
        Err(Failure::UnsupportedConstruct("$(...) command substitution"@, i))
    } else if s[i] == '|' {
        tokens_from(s, i + 1, acc.push(Tok::Pipe), env)
    } else if s[i] == ';' {
        tokens_from(s, i + 1, acc.push(Tok::Semicolon), env)
    } else if s[i] == '&' {
        if i + 1 < s.len() && s[i + 1] == '&' {
            tokens_from(s, i + 2, acc.push(Tok::And), env)
        } else {
            Err(Failure::UnsupportedConstruct("background job (&)"@, i))
        }
    } else if s[i] == '>' {
        if i + 1 < s.len() && s[i + 1] == '>' {
            tokens_from(s, i + 2, acc.push(Tok::Redirect(RedirectionKind::Append)), env)
        } else {
            tokens_from(s, i + 1, acc.push(Tok::Redirect(RedirectionKind::Truncate)), env)
        }
    } else if s[i] == '<' {
        tokens_from(s, i + 1, acc.push(Tok::Redirect(RedirectionKind::Input)), env)
    } else {
        match word_from(s.skip(i), 0, Seq::empty(), env) {
            Ok((word, n)) => {
                proof {
                    lemma_word_from_advances(s.skip(i), 0, Seq::empty(), env);
                }
                tokens_from(s, i + n, acc.push(Tok::Word(word)), env)
            },
            Err(f) => Err(f),
        }
    }
}

/// A lexical token.
enum Token {
    Word(String),
    Pipe,
    Redirect(RedirectionKind),
    And,
    Semicolon,
}

impl Token {
    spec fn view(&self) -> Tok {
        match self {
            Token::Word(w) => Tok::Word(w@),
            Token::Pipe => Tok::Pipe,
            Token::Redirect(k) => Tok::Redirect(*k),
            Token::And => Tok::And,
            Token::Semicolon => Tok::Semicolon,
        }
    }
}

spec fn toks_view(ts: Seq<Token>) -> Seq<Tok> {
    ts.map_values(|t: Token| t.view())
}

/// Splits a line into tokens, expanding variables inside words.
fn tokenize(input: &str, env: &Env) -> (r: Result<Vec<Token>, ParseError>)
    ensures
        match (r, tokens_from(input@, 0, Seq::empty(), env@)) {
            (Ok(ts), Ok(st)) => toks_view(ts@) == st,
            (Err(e), Err(f)) => e.view() == f,
            _ => false,
        },
{
    let chars = chars_of(input);
    let ghost s = chars@;
    let len = chars.len();
    let mut i: usize = 0;
    let mut tokens: Vec<Token> = Vec::new();
    assert(toks_view(tokens@) =~= Seq::<Tok>::empty());
    loop
        invariant
            s == chars@,
            s == input@,
            len == s.len(),
            i <= len,
            tokens_from(s, 0, Seq::empty(), env@) == tokens_from(s, i as int, toks_view(tokens@), env@),
        decreases len - i,
    {
        if i >= len {
            return Ok(tokens);
        }
        let c = chars[i];
        let ghost prev = tokens@;
        assert(s[i as int] == c);
        let has_next = i + 1 < len;
        let next = if has_next { chars[i + 1] } else { ' ' };
        if is_whitespace(c) {
            i = i + 1;
        } else if c == '<' && has_next && next == '<' {
            return Err(ParseError::UnsupportedConstruct { construct: "here-document (<<)", position: i });
        } else if (c == '<' || c == '>') && has_next && next == '(' {
            return Err(ParseError::UnsupportedConstruct { construct: "process substitution", position: i });
        } else if c == '`' {
            return Err(
                ParseError::UnsupportedConstruct { construct: "backtick command substitution", position: i },
            );
        } else if c == '$' && has_next && next == '(' {
            return Err(
                ParseError::UnsupportedConstruct { construct: "$(...) command substitution", position: i },
            );
        } else if c == '|' {
            tokens.push(Token::Pipe);
            assert(toks_view(tokens@) =~= toks_view(prev).push(Tok::Pipe));
            i = i + 1;
        } else if c == ';' {
            tokens.push(Token::Semicolon);
            assert(toks_view(tokens@) =~= toks_view(prev).push(Tok::Semicolon));
            i = i + 1;
        } else if c == '&' {
            if has_next && next == '&' {
                tokens.push(Token::And);
                assert(toks_view(tokens@) =~= toks_view(prev).push(Tok::And));
                i = i + 2;
            } else {
                return Err(ParseError::UnsupportedConstruct { construct: "background job (&)", position: i });
            }
        } else if c == '>' {
            if has_next && next == '>' {
                tokens.push(Token::Redirect(RedirectionKind::Append));
                assert(toks_view(tokens@) =~= toks_view(prev).push(
                    Tok::Redirect(RedirectionKind::Append),
                ));
                i = i + 2;
            } else {
                tokens.push(Token::Redirect(RedirectionKind::Truncate));
                assert(toks_view(tokens@) =~= toks_view(prev).push(
                    Tok::Redirect(RedirectionKind::Truncate),
                ));
                i = i + 1;
            }
        } else if c == '<' {
            tokens.push(Token::Redirect(RedirectionKind::Input));
            assert(toks_view(tokens@) =~= toks_view(prev).push(
                Tok::Redirect(RedirectionKind::Input),
            ));
            i = i + 1;
        } else {
            proof {
                lemma_word_from_advances(s.skip(i as int), 0, Seq::empty(), env@);
            }
            let (word, consumed) = match scan_word(&chars, i, env) {
                Ok(p) => p,
                Err(e) => return Err(e),
            };
            let ghost wv = word@;
            tokens.push(Token::Word(word));
            assert(toks_view(tokens@) =~= toks_view(prev).push(Tok::Word(wv)));
            i = i + consumed;
        }
    }
}

/// The text of a token, as the error for a missing command shows it.
pub open spec fn token_text(t: Tok) -> Seq<char> {
    match t {
        Tok::Word(w) => w,
        Tok::Pipe => "|"@,
        Tok::Redirect(RedirectionKind::Truncate) => ">"@,
        Tok::Redirect(RedirectionKind::Append) => ">>"@,
        Tok::Redirect(RedirectionKind::Input) => "<"@,
        Tok::And => "&&"@,
        Tok::Semicolon => ";"@,
    }
}

/// The operator text of a redirection kind.
pub open spec fn operator_text(k: RedirectionKind) -> Seq<char> {
    match k {
        RedirectionKind::Truncate => ">"@,
        RedirectionKind::Append => ">>"@,
        RedirectionKind::Input => "<"@,
    }
}

fn operator_str(k: RedirectionKind) -> (s: &'static str)
    ensures
        s@ == operator_text(k),
{
    match k {
        RedirectionKind::Truncate => ">",
        RedirectionKind::Append => ">>",
        RedirectionKind::Input => "<",
    }
}

fn token_display(t: &Token) -> (s: String)
    ensures
        s@ == token_text(t.view()),
{
    match t {
        Token::Word(w) => w.clone(),
        Token::Pipe => "|".to_owned(),
        Token::Redirect(k) => operator_str(*k).to_owned(),
        Token::And => "&&".to_owned(),
        Token::Semicolon => ";".to_owned(),
    }
}

/// Building one simple command from the tokens of a stage (no pipes or
/// connectors among them), reading from position `i` with the words and
/// redirections gathered so far.
pub open spec fn simple_from(
    ts: Seq<Tok>,
    i: int,
    words: Seq<Seq<char>>,
    redirs: Seq<(RedirectionKind, Seq<char>)>,
) -> Result<Stage, Failure>
    decreases ts.len() - i,
{
    if i < 0 || i >= ts.len() {
        if words.len() == 0 {
            Err(
                Failure::ExpectedCommandBefore(
                    if ts.len() > 0 {
                        token_text(ts[0])
                    } else {
                        Seq::empty()
                    },
                ),
            )
        } else {
            Ok(Stage { name: words[0], args: words.drop_first(), redirections: redirs })
        }
    } else {
        match ts[i] {
            Tok::Word(w) => simple_from(ts, i + 1, words.push(w), redirs),
            Tok::Redirect(k) => if i + 1 < ts.len() && ts[i + 1] is Word {
                simple_from(ts, i + 2, words, redirs.push((k, ts[i + 1]->Word_0)))
            } else {
                Err(Failure::RedirectionMissingTarget(operator_text(k)))
            },
            _ => simple_from(ts, i + 1, words, redirs),
        }
    }
}

/// The stage built from a token run.
pub open spec fn stage_of(ts: Seq<Tok>) -> Result<Stage, Failure> {
    simple_from(ts, 0, Seq::empty(), Seq::empty())
}

/// Whether a token run holds no pipe and no connector.
pub open spec fn plain_run(ts: Seq<Tok>) -> bool {
    forall|k: int| 0 <= k < ts.len() ==> !(ts[k] is Pipe) && !(ts[k] is And) && !(ts[k] is Semicolon)
}

spec fn words_view(name: Option<String>, args: Seq<Arg>) -> Seq<Seq<char>> {
    match name {
        Some(n) => seq![n@] + args.map_values(|a: Arg| a.0@),
        None => Seq::empty(),
    }
}

fn build_simple_command(tokens: &[Token]) -> (r: Result<ParsedCommand, ParseError>)
    requires
        plain_run(toks_view(tokens@)),
    ensures
        match (r, stage_of(toks_view(tokens@))) {
            (Ok(c), Ok(st)) => c.stages() == seq![st] && c.pipeline_next is None,
            (Err(e), Err(f)) => e.view() == f,
            _ => false,
        },
{
    let ghost ts = toks_view(tokens@);
    let mut name: Option<String> = None;
    let mut args: Vec<Arg> = Vec::new();
    let mut redirections: Vec<Redirection> = Vec::new();
    let mut i: usize = 0;
    assert(redirections@.map_values(|r: Redirection| r.view()) =~= Seq::<(RedirectionKind, Seq<char>)>::empty());
    while i < tokens.len()
        invariant
            ts == toks_view(tokens@),
            plain_run(ts),
            i <= tokens@.len(),
            name is None ==> args@.len() == 0,
            stage_of(ts) == simple_from(
                ts,
                i as int,
                words_view(name, args@),
                redirections@.map_values(|r: Redirection| r.view()),
            ),
        decreases tokens.len() - i,
    {
        let ghost words_before = words_view(name, args@);
        let ghost redirs_before = redirections@.map_values(|r: Redirection| r.view());
        match &tokens[i] {
            Token::Word(w) => {
                if name.is_none() {
                    name = Some(w.clone());
                } else {
                    args.push(Arg(w.clone()));
                }
                assert(words_view(name, args@) =~= words_before.push(w@));
                i = i + 1;
            },
            Token::Redirect(kind) => {
                if i + 1 < tokens.len() {
                    match &tokens[i + 1] {
                        Token::Word(target) => {
                            redirections.push(Redirection { kind: *kind, target: target.clone() });
                            assert(redirections@.map_values(|r: Redirection| r.view())
                                =~= redirs_before.push((*kind, target@)));
                            i = i + 2;
                        },
                        _ => {
                            return Err(ParseError::RedirectionMissingTarget { operator: operator_str(*kind) });
                        },
                    }
                } else {
                    return Err(ParseError::RedirectionMissingTarget { operator: operator_str(*kind) });
                }
            },
            _ => {
                assert(!(ts[i as int] is Pipe) && !(ts[i as int] is And) && !(ts[i as int] is Semicolon));
                i = i + 1;
            },
        }
    }
    match name {
        None => {
            let bad = if tokens.len() > 0 {
                token_display(&tokens[0])
            } else {
                String::new()
            };
            Err(ParseError::ExpectedCommandBefore(bad))
        },
        Some(n) => {
            let ghost nv = n@;
            let ghost av = args@.map_values(|a: Arg| a.0@);
            let cmd = ParsedCommand { name: n, args, redirections, pipeline_next: None };
            assert(cmd.stages() =~= seq![cmd.stage()]);
            assert(cmd.stage().args =~= (seq![nv] + av).drop_first());
            Ok(cmd)
        },
    }
}

/// Splitting a token run at its pipes, from position `idx`, with the
/// current stage starting at `start`: the `[start, end)` ranges of the
/// stages.
pub open spec fn segments_from(ts: Seq<Tok>, start: int, idx: int, acc: Seq<(int, int)>) -> Seq<
    (int, int),
>
    decreases ts.len() - idx,
{
    if idx < 0 || idx >= ts.len() {
        acc.push((start, ts.len() as int))
    } else if ts[idx] is Pipe {
        segments_from(ts, idx + 1, idx + 1, acc.push((start, idx)))
    } else {
        segments_from(ts, start, idx + 1, acc)
    }
}

/// The stage ranges of a token run split at its pipes.
pub open spec fn pipe_segments(ts: Seq<Tok>) -> Seq<(int, int)> {
    segments_from(ts, 0, 0, Seq::empty())
}

/// A range of `ts` that holds no pipe.
pub open spec fn pipe_free(ts: Seq<Tok>, r: (int, int)) -> bool {
    &&& 0 <= r.0 <= r.1 <= ts.len()
    &&& forall|k: int| r.0 <= k < r.1 ==> !(ts[k] is Pipe)
}

proof fn lemma_segments_from(ts: Seq<Tok>, start: int, idx: int, acc: Seq<(int, int)>)
    requires
        0 <= start <= idx <= ts.len(),
        forall|k: int| start <= k < idx ==> !(ts[k] is Pipe),
        forall|j: int| 0 <= j < acc.len() ==> pipe_free(ts, #[trigger] acc[j]),
    ensures
        segments_from(ts, start, idx, acc).len() > acc.len(),
        segments_from(ts, start, idx, acc).subrange(0, acc.len() as int) == acc,
        forall|j: int|
            0 <= j < segments_from(ts, start, idx, acc).len() ==> pipe_free(
                ts,
                #[trigger] segments_from(ts, start, idx, acc)[j],
            ),
    decreases ts.len() - idx,
{
    if idx >= ts.len() {
        assert(acc.push((start, ts.len() as int)).subrange(0, acc.len() as int) =~= acc);
    } else if ts[idx] is Pipe {
        lemma_segments_from(ts, idx + 1, idx + 1, acc.push((start, idx)));
        let r = segments_from(ts, idx + 1, idx + 1, acc.push((start, idx)));
        assert(r.subrange(0, acc.len() as int) =~= r.subrange(0, acc.len() + 1 as int).subrange(
            0,
            acc.len() as int,
        ));
    } else {
        lemma_segments_from(ts, start, idx + 1, acc);
    }
}

/// Building the stages for the ranges `segs[k..]` of `ts`, after `acc`;
/// the first stage that fails to build decides the error.
pub open spec fn build_stages(ts: Seq<Tok>, segs: Seq<(int, int)>, k: int, acc: Seq<Stage>) -> Result<
    Seq<Stage>,
    Failure,
>
    decreases segs.len() - k,
{
    if k < 0 || k >= segs.len() {
        Ok(acc)
    } else {
        match stage_of(ts.subrange(segs[k].0, segs[k].1)) {
            Ok(st) => build_stages(ts, segs, k + 1, acc.push(st)),
            Err(f) => Err(f),
        }
    }
}

/// The pipeline a token run (without connectors) builds: its stages.
pub open spec fn pipeline_of(ts: Seq<Tok>) -> Result<Seq<Stage>, Failure> {
    build_stages(ts, pipe_segments(ts), 0, Seq::empty())
}

/// Whether a token run holds no connector.
pub open spec fn no_connector(ts: Seq<Tok>) -> bool {
    forall|k: int| 0 <= k < ts.len() ==> !(ts[k] is And) && !(ts[k] is Semicolon)
}

/// Splits a token run at its pipes into stage ranges.
fn split_on_pipe(tokens: &[Token]) -> (r: Vec<(usize, usize)>)
    ensures
        r@.map_values(|p: (usize, usize)| (p.0 as int, p.1 as int)) == pipe_segments(toks_view(tokens@)),
{
    let ghost ts = toks_view(tokens@);
    let mut stages: Vec<(usize, usize)> = Vec::new();
    let mut start: usize = 0;
    let mut idx: usize = 0;
    assert(stages@.map_values(|p: (usize, usize)| (p.0 as int, p.1 as int)) =~= Seq::<(int, int)>::empty());
    while idx < tokens.len()
        invariant
            ts == toks_view(tokens@),
            start <= idx <= tokens@.len(),
            pipe_segments(ts) == segments_from(
                ts,
                start as int,
                idx as int,
                stages@.map_values(|p: (usize, usize)| (p.0 as int, p.1 as int)),
            ),
        decreases tokens.len() - idx,
    {
        if let Token::Pipe = &tokens[idx] {
            let ghost before = stages@.map_values(|p: (usize, usize)| (p.0 as int, p.1 as int));
            stages.push((start, idx));
            assert(stages@.map_values(|p: (usize, usize)| (p.0 as int, p.1 as int)) =~= before.push(
                (start as int, idx as int),
            ));
            start = idx + 1;
        }
        idx = idx + 1;
    }
    let ghost before = stages@.map_values(|p: (usize, usize)| (p.0 as int, p.1 as int));
    stages.push((start, tokens.len()));
    assert(stages@.map_values(|p: (usize, usize)| (p.0 as int, p.1 as int)) =~= before.push(
        (start as int, tokens@.len() as int),
    ));
    stages
}

/// The stages of a list of single commands.
spec fn stages_of_list(cs: Seq<ParsedCommand>) -> Seq<Stage> {
    cs.map_values(|c: ParsedCommand| c.stage())
}

/// Builds a pipeline from a token run without connectors.
fn build_pipeline(tokens: &[Token]) -> (r: Result<ParsedCommand, ParseError>)
    requires
        no_connector(toks_view(tokens@)),
    ensures
        match (r, pipeline_of(toks_view(tokens@))) {
            (Ok(c), Ok(p)) => c.stages() == p,
            (Err(e), Err(f)) => e.view() == f,
            _ => false,
        },
{
    let ghost ts = toks_view(tokens@);
    let stages = split_on_pipe(tokens);
    let ghost segs = stages@.map_values(|p: (usize, usize)| (p.0 as int, p.1 as int));
    proof {
        lemma_segments_from(ts, 0, 0, Seq::empty());
    }
    if stages.len() == 0 {
        return Err(ParseError::EmptyInput);
    }
    let mut commands: Vec<ParsedCommand> = Vec::new();
    let mut k: usize = 0;
    assert(stages_of_list(commands@) =~= Seq::<Stage>::empty());
    while k < stages.len()
        invariant
            ts == toks_view(tokens@),
            no_connector(ts),
            segs == stages@.map_values(|p: (usize, usize)| (p.0 as int, p.1 as int)),
            segs == pipe_segments(ts),
            forall|j: int| 0 <= j < segs.len() ==> pipe_free(ts, #[trigger] segs[j]),
            k <= stages@.len(),
            commands@.len() == k,
            forall|j: int| 0 <= j < k ==> (#[trigger] commands@[j]).pipeline_next is None,
            pipeline_of(ts) == build_stages(ts, segs, k as int, stages_of_list(commands@)),
        decreases stages.len() - k,
    {
        let (a, b) = stages[k];
        assert(segs[k as int] == (a as int, b as int));
        assert(pipe_free(ts, segs[k as int]));
        let part = &tokens[a..b];
        assert(toks_view(part@) =~= ts.subrange(a as int, b as int));
        let ghost before = commands@;
        let cmd = match build_simple_command(part) {
            Ok(c) => c,
            Err(e) => return Err(e),
        };
        let ghost st = cmd.stage();
        assert(stage_of(ts.subrange(a as int, b as int)) is Ok);
        assert(stage_of(ts.subrange(a as int, b as int))->Ok_0 == st) by {
            let st2 = stage_of(ts.subrange(a as int, b as int))->Ok_0;
            assert(cmd.stages() == seq![st2]);
            assert(cmd.stages() == seq![cmd.stage()]);
            assert(seq![st2][0] == seq![cmd.stage()][0]);
        }
        assert(build_stages(ts, segs, k as int, stages_of_list(before)) == build_stages(
            ts,
            segs,
            k + 1,
            stages_of_list(before).push(st),
        ));
        commands.push(cmd);
        assert(stages_of_list(commands@) =~= stages_of_list(before).push(st));
        k = k + 1;
    }
    let ghost all = stages_of_list(commands@);
    let ghost n = commands@.len();
    let mut current = match commands.pop() {
        Some(c) => c,
        None => return Err(ParseError::EmptyInput),
    };
    assert(current.stages() =~= all.subrange(n - 1, n as int));
    while commands.len() > 0
        invariant
            n >= 1,
            commands@.len() < n,
            all.len() == n,
            forall|j: int| 0 <= j < commands@.len() ==> (#[trigger] commands@[j]).pipeline_next is None,
            forall|j: int| 0 <= j < commands@.len() ==> (#[trigger] commands@[j]).stage() == all[j],
            current.stages() == all.subrange(commands@.len() as int, n as int),
        decreases commands@.len(),
    {
        let mut earlier = match commands.pop() {
            Some(c) => c,
            None => return Err(ParseError::EmptyInput),
        };
        let ghost m = commands@.len();
        assert(earlier.stage() == all[m as int]);
        let ghost rest = current.stages();
        earlier.pipeline_next = Some(Box::new(current));
        assert(earlier.stages() == seq![earlier.stage()] + rest);
        assert(earlier.stages() =~= all.subrange(m as int, n as int));
        current = earlier;
    }
    assert(all.subrange(0, n as int) =~= all);
    Ok(current)
}

/// The text of a connector token.
pub open spec fn connector_text(t: Tok) -> Seq<char> {
    match t {
        Tok::And => "&&"@,
        Tok::Semicolon => ";"@,
        _ => Seq::empty(),
    }
}

/// The connector a token stands for, if it is one.
pub open spec fn connector_of(t: Tok) -> Option<Connector> {
    match t {
        Tok::And => Some(Connector::And),
        Tok::Semicolon => Some(Connector::Sequence),
        _ => None,
    }
}

/// Building the segments of a line from token position `idx`, where the
/// current pipeline starts at `start`, after the segments `acc`.
pub open spec fn line_from(
    ts: Seq<Tok>,
    start: int,
    idx: int,
    acc: Seq<(Seq<Stage>, Option<Connector>)>,
) -> Result<Seq<(Seq<Stage>, Option<Connector>)>, Failure>
    decreases ts.len() - idx,
{
    if idx < 0 || idx >= ts.len() {
        if start >= ts.len() {
            Err(Failure::ExpectedCommandAfter(connector_text(ts.last())))
        } else {
            match pipeline_of(ts.subrange(start, ts.len() as int)) {
                Ok(p) => Ok(acc.push((p, None))),
                Err(f) => Err(f),
            }
        }
    } else if connector_of(ts[idx]) is Some {
        match pipeline_of(ts.subrange(start, idx)) {
            Ok(p) => line_from(ts, idx + 1, idx + 1, acc.push((p, connector_of(ts[idx])))),
            Err(f) => Err(f),
        }
    } else {
        line_from(ts, start, idx + 1, acc)
    }
}

spec fn segments_view(v: Seq<(ParsedCommand, Option<Connector>)>) -> Seq<(Seq<Stage>, Option<Connector>)> {
    v.map_values(|s: (ParsedCommand, Option<Connector>)| (s.0.stages(), s.1))
}

/// Builds a command line from its (non-empty) tokens.
fn build_command_line(tokens: &[Token]) -> (r: Result<CommandLine, ParseError>)
    requires
        tokens@.len() > 0,
    ensures
        match (r, line_from(toks_view(tokens@), 0, 0, Seq::empty())) {
            (Ok(l), Ok(v)) => l.view() == v,
            (Err(e), Err(f)) => e.view() == f,
            _ => false,
        },
{
    let ghost ts = toks_view(tokens@);
    let mut segments: Vec<(ParsedCommand, Option<Connector>)> = Vec::new();
    let mut start: usize = 0;
    let mut idx: usize = 0;
    assert(segments_view(segments@) =~= Seq::<(Seq<Stage>, Option<Connector>)>::empty());
    while idx < tokens.len()
        invariant
            ts == toks_view(tokens@),
            ts.len() > 0,
            start <= idx <= tokens@.len(),
            forall|k: int| start <= k < idx ==> !(ts[k] is And) && !(ts[k] is Semicolon),
            start > 0 ==> connector_of(ts[start - 1]) is Some,
            line_from(ts, 0, 0, Seq::empty()) == line_from(
                ts,
                start as int,
                idx as int,
                segments_view(segments@),
            ),
        decreases tokens.len() - idx,
    {
        let connector = match &tokens[idx] {
            Token::And => Some(Connector::And),
            Token::Semicolon => Some(Connector::Sequence),
            _ => None,
        };
        assert(connector == connector_of(ts[idx as int]));
        if let Some(conn) = connector {
            let part = &tokens[start..idx];
            assert(toks_view(part@) =~= ts.subrange(start as int, idx as int));
            let pipeline = match build_pipeline(part) {
                Ok(p) => p,
                Err(e) => return Err(e),
            };
            let ghost before = segments_view(segments@);
            let ghost pv = pipeline.stages();
            segments.push((pipeline, Some(conn)));
            assert(segments_view(segments@) =~= before.push((pv, Some(conn))));
            start = idx + 1;
        }
        idx = idx + 1;
    }
    if start == tokens.len() {
        let connector_name = match &tokens[tokens.len() - 1] {
            Token::And => "&&",
            _ => ";",
        };
        return Err(ParseError::ExpectedCommandAfter { connector: connector_name });
    }
    let part = &tokens[start..tokens.len()];
    assert(toks_view(part@) =~= ts.subrange(start as int, ts.len() as int));
    let pipeline = match build_pipeline(part) {
        Ok(p) => p,
        Err(e) => return Err(e),
    };
    let ghost before = segments_view(segments@);
    let ghost pv = pipeline.stages();
    segments.push((pipeline, None));
    assert(segments_view(segments@) =~= before.push((pv, None)));
    let line = CommandLine { segments };
    assert(line.view() == segments_view(line.segments@));
    Ok(line)
}

/// What parsing a line gives: its segments, or the reason it was rejected.
pub open spec fn parse_result(input: Seq<char>, env: Map<Seq<char>, Seq<char>>) -> Result<
    Seq<(Seq<Stage>, Option<Connector>)>,
    Failure,
> {
    match tokens_from(input, 0, Seq::empty(), env) {
        Err(f) => Err(f),
        Ok(ts) => if ts.len() == 0 {
            Err(Failure::EmptyInput)
        } else {
            line_from(ts, 0, 0, Seq::empty())
        },
    }
}

proof fn lemma_line_from_grows(
    ts: Seq<Tok>,
    start: int,
    idx: int,
    acc: Seq<(Seq<Stage>, Option<Connector>)>,
)
    ensures
        line_from(ts, start, idx, acc) matches Ok(v) ==> v.len() > acc.len(),
    decreases ts.len() - idx,
{
    if idx < 0 || idx >= ts.len() {
    } else if connector_of(ts[idx]) is Some {
        match pipeline_of(ts.subrange(start, idx)) {
            Ok(p) => lemma_line_from_grows(ts, idx + 1, idx + 1, acc.push((p, connector_of(ts[idx])))),
            Err(_) => {},
        }
    } else {
        lemma_line_from_grows(ts, start, idx + 1, acc);
    }
}

/// A line that parses has at least one segment.
pub proof fn lemma_parsed_line_has_a_segment(input: Seq<char>, env: Map<Seq<char>, Seq<char>>)
    ensures
        parse_result(input, env) matches Ok(v) ==> v.len() > 0,
{
    match tokens_from(input, 0, Seq::empty(), env) {
        Ok(ts) => if ts.len() > 0 {
            lemma_line_from_grows(ts, 0, 0, Seq::empty());
        },
        Err(_) => {},
    }
}

/// Parses one command line against the session's variables.
pub fn parse_line(input: &str, env: &Env) -> (r: Result<CommandLine, ParseError>)
    ensures
        match (r, parse_result(input@, env@)) {
            (Ok(l), Ok(v)) => l.view() == v,
            (Err(e), Err(f)) => e.view() == f,
            _ => false,
        },
{
    let tokens = match tokenize(input, env) {
        Ok(t) => t,
        Err(e) => return Err(e),
    };
    if tokens.len() == 0 {
        return Err(ParseError::EmptyInput);
    }
    build_command_line(tokens.as_slice())
}

} // verus!
