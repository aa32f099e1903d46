//! Sandbox-relative paths. A `SandboxPath` is always normalised: no empty,
//! and no `..`, component, and no NUL; it names a location inside the
//! sandbox root by construction, whatever text it was built from.

use vstd::prelude::*;
use crate::text::{chars_of, chars_eq, contains_char, join, join_strings, push_all, string_from_chars};
use crate::parser::{char_pos, lemma_char_pos};

verus! {

/// Splitting `s` at every `sep`, from position `i` (the components that
/// begin there); like `str::split`, an empty string has one empty part.
pub open spec fn split_from(s: Seq<char>, i: int, sep: char) -> Seq<Seq<char>>
    decreases s.len() - i,
{
    if i < 0 || i > s.len() {
        Seq::empty()
    } else {
        let k = char_pos(s, i, sep);
        if k >= s.len() {
            seq![s.subrange(i, s.len() as int)]
        } else {
            proof {
                lemma_char_pos(s, i, sep);
            }
            seq![s.subrange(i, k)] + split_from(s, k + 1, sep)
        }
    }
}

/// `s` split at every `sep`.
pub open spec fn split_on(s: Seq<char>, sep: char) -> Seq<Seq<char>> {
    split_from(s, 0, sep)
}

/// The components of a normalised path; the root has none.
pub open spec fn components(p: Seq<char>) -> Seq<Seq<char>> {
    if p.len() == 0 {
        Seq::empty()
    } else {
        split_on(p, '/')
    }
}

/// The `..` component.
pub open spec fn dot_dot() -> Seq<char> {
    seq!['.', '.']
}

/// The `.` component.
pub open spec fn dot() -> Seq<char> {
    seq!['.']
}

/// What every `SandboxPath` satisfies: no NUL, and every component is
/// non-empty and not `..`.
pub open spec fn is_normal(p: Seq<char>) -> bool {
    &&& !p.contains('\0')
    &&& forall|k: int|
        0 <= k < components(p).len() ==> (#[trigger] components(p)[k]).len() > 0
            && components(p)[k] != dot_dot()
}

/// Components `parts` joined with `/`.
pub open spec fn join_path(parts: Seq<Seq<char>>) -> Seq<char> {
    join(parts, seq!['/'])
}

/// Keeps the components that carry a name (drops empty ones and `.`).
pub open spec fn named_parts(parts: Seq<Seq<char>>) -> Seq<Seq<char>>
    decreases parts.len(),
{
    if parts.len() == 0 {
        Seq::empty()
    } else if parts.last().len() == 0 || parts.last() == dot() {
        named_parts(parts.drop_last())
    } else {
        named_parts(parts.drop_last()).push(parts.last())
    }
}

/// Resolving the components `parts[i..]` relative to the components
/// `base`: `..` pops (never past the root), empty and `.` are skipped.
pub open spec fn resolve_parts(parts: Seq<Seq<char>>, i: int, base: Seq<Seq<char>>) -> Seq<
    Seq<char>,
>
    decreases parts.len() - i,
{
    if i < 0 || i >= parts.len() {
        base
    } else if parts[i].len() == 0 || parts[i] == dot() {
        resolve_parts(parts, i + 1, base)
    } else if parts[i] == dot_dot() {
        resolve_parts(
            parts,
            i + 1,
            if base.len() > 0 {
                base.drop_last()
            } else {
                base
            },
        )
    } else {
        resolve_parts(parts, i + 1, base.push(parts[i]))
    }
}

// ----------------------------------------------------------------------
// Splitting and joining
// ----------------------------------------------------------------------

proof fn lemma_char_pos_at(w: Seq<char>, j: int, m: int, c: char)
    requires
        0 <= j <= m <= w.len(),
        forall|k: int| j <= k < m ==> w[k] != c,
        m == w.len() || w[m] == c,
    ensures
        char_pos(w, j, c) == m,
    decreases m - j,
{
    if j < m {
        lemma_char_pos_at(w, j + 1, m, c);
    }
}

/// Splitting `x`, a separator, then `y` (which holds no separator) gives
/// the parts of `x` followed by `y`.
proof fn lemma_split_append(x: Seq<char>, y: Seq<char>, sep: char, i: int)
    requires
        0 <= i <= x.len(),
        !y.contains(sep),
    ensures
        split_from(x + seq![sep] + y, i, sep) == split_from(x, i, sep).push(y),
    decreases x.len() - i,
{
    let z = x + seq![sep] + y;
    lemma_char_pos(x, i, sep);
    let k0 = char_pos(x, i, sep);
    if k0 < x.len() {
        assert forall|k: int| i <= k < k0 implies z[k] != sep by {
            assert(z[k] == x[k]);
        }
        lemma_char_pos_at(z, i, k0, sep);
        lemma_split_append(x, y, sep, k0 + 1);
        assert(z.subrange(i, k0) =~= x.subrange(i, k0));
        assert(split_from(z, i, sep) == seq![z.subrange(i, k0)] + split_from(z, k0 + 1, sep));
        assert(split_from(x, i, sep) == seq![x.subrange(i, k0)] + split_from(x, k0 + 1, sep));
        assert(split_from(z, i, sep) =~= split_from(x, i, sep).push(y));
    } else {
        assert forall|k: int| i <= k < x.len() implies z[k] != sep by {
            assert(z[k] == x[k]);
        }
        lemma_char_pos_at(z, i, x.len() as int, sep);
        assert forall|k: int| x.len() + 1 <= k < z.len() implies z[k] != sep by {
            assert(z[k] == y[k - x.len() - 1]);
        }
        lemma_char_pos_at(z, x.len() + 1 as int, z.len() as int, sep);
        assert(z.subrange(i, x.len() as int) =~= x.subrange(i, x.len() as int));
        assert(z.subrange(x.len() + 1 as int, z.len() as int) =~= y);
        assert(split_from(z, x.len() + 1 as int, sep) == seq![y]);
        assert(split_from(x, i, sep) == seq![x.subrange(i, x.len() as int)]);
        assert(split_from(z, i, sep) =~= split_from(x, i, sep).push(y));
    }
}

/// A string without the separator is a single part.
proof fn lemma_split_single(x: Seq<char>, sep: char)
    requires
        !x.contains(sep),
    ensures
        split_on(x, sep) == seq![x],
{
    assert forall|k: int| 0 <= k < x.len() implies x[k] != sep by {
        if x[k] == sep {
            assert(x.contains(sep));
        }
    }
    lemma_char_pos_at(x, 0, x.len() as int, sep);
    assert(x.subrange(0, x.len() as int) =~= x);
}

/// Joining parts that hold no `/`, then splitting at `/`, gives the parts
/// back.
pub proof fn lemma_split_join(parts: Seq<Seq<char>>)
    requires
        parts.len() >= 1,
        forall|k: int| 0 <= k < parts.len() ==> !(#[trigger] parts[k]).contains('/'),
    ensures
        split_on(join_path(parts), '/') == parts,
    decreases parts.len(),
{
    if parts.len() == 1 {
        lemma_split_single(parts[0], '/');
        assert(seq![parts[0]] =~= parts);
    } else {
        let init = parts.drop_last();
        assert forall|k: int| 0 <= k < init.len() implies !(#[trigger] init[k]).contains('/') by {
            assert(init[k] == parts[k]);
        }
        lemma_split_join(init);
        assert(!parts.last().contains('/'));
        lemma_split_append(join_path(init), parts.last(), '/', 0);
        assert(init.push(parts.last()) =~= parts);
    }
}

/// The join of non-empty parts is empty exactly when there are no parts.
proof fn lemma_join_empty(parts: Seq<Seq<char>>)
    requires
        forall|k: int| 0 <= k < parts.len() ==> (#[trigger] parts[k]).len() > 0,
    ensures
        join_path(parts).len() == 0 <==> parts.len() == 0,
    decreases parts.len(),
{
    if parts.len() > 1 {
        let init = parts.drop_last();
        assert forall|k: int| 0 <= k < init.len() implies (#[trigger] init[k]).len() > 0 by {
            assert(init[k] == parts[k]);
        }
        lemma_join_empty(init);
    } else if parts.len() == 1 {
        assert(parts[0].len() > 0);
    }
}

/// A character occurs in a join only if it is the separator or occurs in a
/// part.
proof fn lemma_join_chars(parts: Seq<Seq<char>>, c: char)
    requires
        c != '/',
        forall|k: int| 0 <= k < parts.len() ==> !(#[trigger] parts[k]).contains(c),
    ensures
        !join_path(parts).contains(c),
    decreases parts.len(),
{
    if parts.len() > 1 {
        let init = parts.drop_last();
        assert forall|k: int| 0 <= k < init.len() implies !(#[trigger] init[k]).contains(c) by {
            assert(init[k] == parts[k]);
        }
        lemma_join_chars(init, c);
        let j = join_path(parts);
        assert(j == join_path(init) + seq!['/'] + parts.last());
        if j.contains(c) {
            let k = choose|k: int| 0 <= k < j.len() && j[k] == c;
            if k < join_path(init).len() {
                assert(join_path(init)[k] == c);
            } else if k == join_path(init).len() {
            } else {
                assert(parts.last()[k - join_path(init).len() - 1] == c);
            }
        }
    } else if parts.len() == 1 {
        assert(parts[0] == parts[0]);
    }
}

/// Parts that are named (non-empty, no `/`, not `..`, no NUL) join into a
/// normal path whose components are those parts.
pub proof fn lemma_join_normal(parts: Seq<Seq<char>>)
    requires
        forall|k: int|
            0 <= k < parts.len() ==> (#[trigger] parts[k]).len() > 0 && !parts[k].contains('/')
                && parts[k] != dot_dot() && !parts[k].contains('\0'),
    ensures
        is_normal(join_path(parts)),
        components(join_path(parts)) == parts,
{
    lemma_join_empty(parts);
    lemma_join_chars(parts, '\0');
    if parts.len() > 0 {
        lemma_split_join(parts);
    }
}

/// Splits `s` at every `sep`.
pub fn split_chars(s: &[char], sep: char) -> (r: Vec<Vec<char>>)
    ensures
        r@.map_values(|p: Vec<char>| p@) == split_on(s@, sep),
{
    let mut parts: Vec<Vec<char>> = Vec::new();
    let mut i: usize = 0;
    assert(parts@.map_values(|p: Vec<char>| p@) =~= Seq::<Seq<char>>::empty());
    loop
        invariant
            i <= s@.len(),
            split_on(s@, sep) == parts@.map_values(|p: Vec<char>| p@) + split_from(s@, i as int, sep),
        decreases s@.len() - i,
    {
        let mut k = i;
        while k < s.len() && s[k] != sep
            invariant
                i <= k <= s@.len(),
                char_pos(s@, i as int, sep) == char_pos(s@, k as int, sep),
            decreases s@.len() - k,
        {
            k = k + 1;
        }
        let mut part: Vec<char> = Vec::new();
        let mut j = i;
        while j < k
            invariant
                i <= j <= k <= s@.len(),
                part@ == s@.subrange(i as int, j as int),
            decreases k - j,
        {
            part.push(s[j]);
            j = j + 1;
            assert(part@ =~= s@.subrange(i as int, j as int));
        }
        let ghost before = parts@.map_values(|p: Vec<char>| p@);
        let ghost pv = part@;
        parts.push(part);
        assert(parts@.map_values(|p: Vec<char>| p@) =~= before.push(pv));
        if k >= s.len() {
            assert(split_from(s@, i as int, sep) == seq![pv]);
            assert(before + seq![pv] =~= before.push(pv));
            return parts;
        }
        proof {
            lemma_char_pos(s@, i as int, sep);
        }
        assert(split_from(s@, i as int, sep) == seq![pv] + split_from(s@, k + 1, sep));
        assert(before + (seq![pv] + split_from(s@, k + 1, sep)) =~= before.push(pv) + split_from(
            s@,
            k + 1,
            sep,
        ));
        i = k + 1;
    }
}


/// The last position before `j` holding `c`, or -1.
pub open spec fn last_pos(w: Seq<char>, j: int, c: char) -> int
    decreases j,
{
    if j <= 0 || j > w.len() {
        -1
    } else if w[j - 1] == c {
        j - 1
    } else {
        last_pos(w, j - 1, c)
    }
}

proof fn lemma_last_pos(w: Seq<char>, j: int, c: char)
    requires
        0 <= j <= w.len(),
    ensures
        -1 <= last_pos(w, j, c) < j,
        last_pos(w, j, c) >= 0 ==> w[last_pos(w, j, c)] == c,
        forall|k: int| last_pos(w, j, c) < k < j ==> w[k] != c,
    decreases j,
{
    if j > 0 && w[j - 1] != c {
        lemma_last_pos(w, j - 1, c);
    }
}

/// The parent of a path: everything before its last `/`, the root for a
/// single component, and nothing for the root.
pub open spec fn parent_of(p: Seq<char>) -> Option<Seq<char>> {
    if p.len() == 0 {
        None
    } else {
        let k = last_pos(p, p.len() as int, '/');
        if k < 0 {
            Some(Seq::empty())
        } else {
            Some(p.subrange(0, k))
        }
    }
}

/// The last component of a path; nothing for the root.
pub open spec fn file_name_of(p: Seq<char>) -> Option<Seq<char>> {
    if p.len() == 0 {
        None
    } else {
        Some(p.subrange(last_pos(p, p.len() as int, '/') + 1, p.len() as int))
    }
}

/// The parent directory and name of the entry at `p`; `None` for the root.
pub open spec fn entry_place(p: Seq<char>) -> Option<(Seq<char>, Seq<char>)> {
    match (parent_of(p), file_name_of(p)) {
        (Some(d), Some(n)) => Some((d, n)),
        _ => None,
    }
}

/// What joining the component `c` onto `p` gives.
pub open spec fn join_component(p: Seq<char>, c: Seq<char>) -> Result<Seq<char>, PathFailure> {
    if c.len() == 0 {
        Err(PathFailure::EmptyComponent(c))
    } else if c == dot_dot() {
        Err(PathFailure::ParentComponent(c))
    } else if c.contains('/') || c.contains('\0') {
        Err(PathFailure::EmptyComponent(c))
    } else if p.len() == 0 {
        Ok(c)
    } else {
        Ok(p + seq!['/'] + c)
    }
}

/// What resolving `raw` (as typed at a prompt) against the directory
/// `base` gives: a leading `/` restarts from the root, `..` pops but never
/// past the root.
pub open spec fn resolve_path(base: Seq<char>, raw: Seq<char>) -> Result<Seq<char>, PathFailure> {
    if raw.contains('\0') {
        Err(PathFailure::ContainsNul)
    } else {
        Ok(
            join_path(
                resolve_parts(
                    split_on(raw, '/'),
                    0,
                    if raw.len() > 0 && raw[0] == '/' {
                        Seq::empty()
                    } else {
                        components(base)
                    },
                ),
            ),
        )
    }
}

/// Components that can stand in a normal path.
pub open spec fn named(parts: Seq<Seq<char>>) -> bool {
    forall|k: int|
        0 <= k < parts.len() ==> (#[trigger] parts[k]).len() > 0 && !parts[k].contains('/')
            && parts[k] != dot_dot() && !parts[k].contains('\0')
}

proof fn lemma_normal_components(p: Seq<char>)
    requires
        is_normal(p),
    ensures
        named(components(p)),
{
    if p.len() > 0 {
        lemma_split_parts_clean(p, '/', 0);
        assert forall|k: int| 0 <= k < components(p).len() implies !(
        #[trigger] components(p)[k]).contains('\0') by {
            if components(p)[k].contains('\0') {
                assert(p.contains('\0'));
            }
        }
    }
}

proof fn lemma_resolve_parts_named(parts: Seq<Seq<char>>, i: int, base: Seq<Seq<char>>)
    requires
        named(base),
        forall|k: int| 0 <= k < parts.len() ==> !(#[trigger] parts[k]).contains('/') && !parts[k].contains('\0'),
    ensures
        named(resolve_parts(parts, i, base)),
    decreases parts.len() - i,
{
    if i < 0 || i >= parts.len() {
    } else if parts[i].len() == 0 || parts[i] == dot() {
        lemma_resolve_parts_named(parts, i + 1, base);
    } else if parts[i] == dot_dot() {
        let b2 = if base.len() > 0 { base.drop_last() } else { base };
        assert forall|k: int| 0 <= k < b2.len() implies (#[trigger] b2[k]).len() > 0 && !b2[k].contains('/')
            && b2[k] != dot_dot() && !b2[k].contains('\0') by {
            assert(b2[k] == base[k]);
        }
        lemma_resolve_parts_named(parts, i + 1, b2);
    } else {
        let b2 = base.push(parts[i]);
        assert forall|k: int| 0 <= k < b2.len() implies (#[trigger] b2[k]).len() > 0 && !b2[k].contains('/')
            && b2[k] != dot_dot() && !b2[k].contains('\0') by {
            if k < base.len() {
                assert(b2[k] == base[k]);
            }
        }
        lemma_resolve_parts_named(parts, i + 1, b2);
    }
}

proof fn lemma_last_pos_at(w: Seq<char>, j: int, m: int, c: char)
    requires
        -1 <= m < j <= w.len(),
        forall|k: int| m < k < j ==> w[k] != c,
        m == -1 || w[m] == c,
    ensures
        last_pos(w, j, c) == m,
    decreases j,
{
    if j - 1 > m {
        lemma_last_pos_at(w, j - 1, m, c);
    }
}

/// Joining a component onto a path and then asking for the parent gives
/// the path back, and asking for the file name gives the component back.
pub proof fn lemma_join_parent_round_trip(p: Seq<char>, c: Seq<char>)
    requires
        join_component(p, c) is Ok,
    ensures
        parent_of(join_component(p, c)->Ok_0) == Some(p),
        file_name_of(join_component(p, c)->Ok_0) == Some(c),
{
    let q = join_component(p, c)->Ok_0;
    assert forall|k: int| 0 <= k < c.len() implies c[k] != '/' by {
        if c[k] == '/' {
            assert(c.contains('/'));
        }
    }
    if p.len() == 0 {
        lemma_last_pos_at(q, q.len() as int, -1, '/');
        assert(q.subrange(0, q.len() as int) =~= c);
    } else {
        let m = p.len() as int;
        assert forall|k: int| m < k < q.len() implies q[k] != '/' by {
            assert(q[k] == c[k - m - 1]);
        }
        lemma_last_pos_at(q, q.len() as int, m, '/');
        assert(q.subrange(0, m) =~= p);
        assert(q.subrange(m + 1, q.len() as int) =~= c);
    }
}

// ----------------------------------------------------------------------
// The path type
// ----------------------------------------------------------------------

/// A validated, normalised path relative to the sandbox root (the root
/// itself is the empty path).
#[derive(Debug, PartialEq, Eq, Hash)]
pub struct SandboxPath(String);

impl Clone for SandboxPath {
    fn clone(&self) -> (r: Self)
        ensures
            r@ == self@,
    {
        proof {
            use_type_invariant(self);
        }
        SandboxPath(self.0.clone())
    }
}

impl View for SandboxPath {
    type V = Seq<char>;

    closed spec fn view(&self) -> Seq<char> {
        self.0@
    }
}

impl SandboxPath {
    #[verifier::type_invariant]
    closed spec fn normal(self) -> bool {
        is_normal(self.0@)
    }
}

/// Why a path was refused.
#[derive(Debug, Clone, PartialEq, Eq)]
pub enum SandboxPathError {
    Empty,
    ContainsNul,
    ParentComponent(String),
    EmptyComponent(String),
}

/// A path refusal with its text as a character sequence.
pub enum PathFailure {
    Empty,
    ContainsNul,
    ParentComponent(Seq<char>),
    EmptyComponent(Seq<char>),
}

impl SandboxPathError {
    pub open spec fn view(&self) -> PathFailure {
        match self {
            SandboxPathError::Empty => PathFailure::Empty,
            SandboxPathError::ContainsNul => PathFailure::ContainsNul,
            SandboxPathError::ParentComponent(s) => PathFailure::ParentComponent(s@),
            SandboxPathError::EmptyComponent(s) => PathFailure::EmptyComponent(s@),
        }
    }
}

/// The message a path refusal is shown with.
pub open spec fn path_failure_text(f: PathFailure) -> Seq<char> {
    match f {
        PathFailure::Empty => "path is empty"@,
        PathFailure::ContainsNul => "path contains a NUL byte"@,
        PathFailure::ParentComponent(s) => "path component `..` is not allowed: "@ + s,
        PathFailure::EmptyComponent(s) => "path component is empty (repeated or trailing separator): "@ + s,
    }
}

impl SandboxPathError {
    /// The refusal as shown to the user.
    pub fn message(&self) -> (s: String)
        ensures
            s@ == path_failure_text(self.view()),
    {
        match self {
            SandboxPathError::Empty => "path is empty".to_string(),
            SandboxPathError::ContainsNul => "path contains a NUL byte".to_string(),
            SandboxPathError::ParentComponent(p) => {
                let mut out = chars_of("path component `..` is not allowed: ");
                crate::text::push_str(&mut out, p.as_str());
                string_from_chars(out.as_slice())
            },
            SandboxPathError::EmptyComponent(p) => {
                let mut out = chars_of("path component is empty (repeated or trailing separator): ");
                crate::text::push_str(&mut out, p.as_str());
                string_from_chars(out.as_slice())
            },
        }
    }
}

/// What parsing `s` as a sandbox path gives.
pub open spec fn parse_path(s: Seq<char>) -> Result<Seq<char>, PathFailure> {
    if s.len() == 0 {
        Err(PathFailure::Empty)
    } else if s.contains('\0') {
        Err(PathFailure::ContainsNul)
    } else if split_on(s, '/').contains(dot_dot()) {
        Err(PathFailure::ParentComponent(s))
    } else {
        Ok(join_path(named_parts(split_on(s, '/'))))
    }
}

proof fn lemma_split_parts_clean(s: Seq<char>, sep: char, i: int)
    requires
        0 <= i <= s.len(),
    ensures
        forall|k: int|
            0 <= k < split_from(s, i, sep).len() ==> !(#[trigger] split_from(s, i, sep)[k]).contains(sep),
        forall|k: int, c: char|
            0 <= k < split_from(s, i, sep).len() && #[trigger] split_from(s, i, sep)[k].contains(c)
                ==> s.contains(c),
    decreases s.len() - i,
{
    lemma_char_pos(s, i, sep);
    let k0 = char_pos(s, i, sep);
    let first = s.subrange(i, if k0 >= s.len() { s.len() as int } else { k0 });
    assert(!first.contains(sep)) by {
        if first.contains(sep) {
            let j = choose|j: int| 0 <= j < first.len() && first[j] == sep;
            assert(s[i + j] == sep);
        }
    }
    assert forall|c: char| first.contains(c) implies s.contains(c) by {
        let j = choose|j: int| 0 <= j < first.len() && first[j] == c;
        assert(s[i + j] == c);
    }
    if k0 < s.len() {
        lemma_split_parts_clean(s, sep, k0 + 1);
        let rest = split_from(s, k0 + 1, sep);
        assert(split_from(s, i, sep) == seq![first] + rest);
        assert forall|k: int| 0 <= k < split_from(s, i, sep).len() implies !(#[trigger] split_from(
            s,
            i,
            sep,
        )[k]).contains(sep) by {
            if k > 0 {
                assert(split_from(s, i, sep)[k] == rest[k - 1]);
            }
        }
        assert forall|k: int, c: char|
            0 <= k < split_from(s, i, sep).len() && #[trigger] split_from(s, i, sep)[k].contains(c)
            implies s.contains(c) by {
            if k > 0 {
                assert(split_from(s, i, sep)[k] == rest[k - 1]);
            }
        }
    }
}

proof fn lemma_named_parts(parts: Seq<Seq<char>>)
    ensures
        forall|k: int|
            0 <= k < named_parts(parts).len() ==> (#[trigger] named_parts(parts)[k]).len() > 0
                && parts.contains(named_parts(parts)[k]),
    decreases parts.len(),
{
    if parts.len() > 0 {
        lemma_named_parts(parts.drop_last());
        let n = named_parts(parts);
        let m = named_parts(parts.drop_last());
        assert forall|k: int| 0 <= k < n.len() implies (#[trigger] n[k]).len() > 0 && parts.contains(
            n[k],
        ) by {
            if k < m.len() {
                assert(n[k] == m[k]);
                let j = choose|j: int| 0 <= j < parts.drop_last().len() && parts.drop_last()[j] == m[k];
                assert(parts[j] == m[k]);
            } else {
                assert(n[k] == parts.last());
                assert(parts[parts.len() - 1] == parts.last());
            }
        }
    }
}

proof fn lemma_parse_path_normal(s: Seq<char>)
    requires
        parse_path(s) is Ok,
    ensures
        is_normal(parse_path(s)->Ok_0),
        components(parse_path(s)->Ok_0) == named_parts(split_on(s, '/')),
{
    let parts = split_on(s, '/');
    lemma_split_parts_clean(s, '/', 0);
    lemma_named_parts(parts);
    let n = named_parts(parts);
    assert forall|k: int| 0 <= k < n.len() implies (#[trigger] n[k]).len() > 0 && !n[k].contains('/')
        && n[k] != dot_dot() && !n[k].contains('\0') by {
        let j = choose|j: int| 0 <= j < parts.len() && parts[j] == n[k];
        assert(!parts[j].contains('/'));
        if n[k].contains('\0') {
            assert(parts[j].contains('\0'));
        }
        if n[k] == dot_dot() {
            assert(parts.contains(dot_dot()));
        }
    }
    lemma_join_normal(n);
}

impl SandboxPath {
    /// Parses and normalises a sandbox path. A leading `/` means the sandbox
    /// root; empty and `.` components are dropped; `..` is refused.
    pub fn parse(input: &str) -> (r: Result<Self, SandboxPathError>)
        ensures
            match (r, parse_path(input@)) {
                (Ok(p), Ok(v)) => p@ == v,
                (Err(e), Err(f)) => e.view() == f,
                _ => false,
            },
            r matches Ok(p) ==> is_normal(p@) && components(p@) == named_parts(split_on(input@, '/')),
    {
        let chars = chars_of(input);
        if chars.len() == 0 {
            return Err(SandboxPathError::Empty);
        }
        if contains_char(chars.as_slice(), '\0') {
            return Err(SandboxPathError::ContainsNul);
        }
        let parts = split_chars(chars.as_slice(), '/');
        let ghost pv = parts@.map_values(|p: Vec<char>| p@);
        let dd = ['.', '.'];
        let d = ['.'];
        let mut kept: Vec<Vec<char>> = Vec::new();
        let mut i: usize = 0;
        assert(kept@.map_values(|p: Vec<char>| p@) =~= named_parts(pv.take(0)));
        while i < parts.len()
            invariant
                pv == parts@.map_values(|p: Vec<char>| p@),
                pv == split_on(input@, '/'),
                chars@ == input@,
                input@.len() > 0,
                !input@.contains('\0'),
                dd@ == dot_dot(),
                d@ == dot(),
                i <= parts@.len(),
                forall|k: int| 0 <= k < i ==> pv[k] != dot_dot(),
                kept@.map_values(|p: Vec<char>| p@) == named_parts(pv.take(i as int)),
            decreases parts.len() - i,
        {
            let part = &parts[i];
            assert(pv.take(i + 1).drop_last() =~= pv.take(i as int));
            assert(pv.take(i + 1).last() == part@);
            if chars_eq(part.as_slice(), dd.as_slice()) {
                assert(pv.contains(dot_dot())) by {
                    assert(pv[i as int] == dot_dot());
                }
                let text = string_from_chars(chars.as_slice());
                return Err(SandboxPathError::ParentComponent(text));
            }
            if part.len() == 0 || chars_eq(part.as_slice(), d.as_slice()) {
            } else {
                let ghost before = kept@.map_values(|p: Vec<char>| p@);
                kept.push(part.clone());
                assert(kept@.map_values(|p: Vec<char>| p@) =~= before.push(part@));
            }
            i = i + 1;
        }
        assert(pv.take(parts@.len() as int) =~= pv);
        assert(!pv.contains(dot_dot())) by {
            if pv.contains(dot_dot()) {
                let j = choose|j: int| 0 <= j < pv.len() && pv[j] == dot_dot();
                assert(pv[j] != dot_dot());
            }
        }
        let joined = join_strings(&kept, "/");
        proof {
            reveal_strlit("/");
            assert("/"@ =~= seq!['/']);
            lemma_parse_path_normal(input@);
        }
        Ok(SandboxPath(string_from_chars(joined.as_slice())))
    }

    /// The sandbox root.
    pub fn root() -> (r: Self)
        ensures
            r@ == Seq::<char>::empty(),
    {
        let r = SandboxPath(String::new());
        assert(components(r.0@) =~= Seq::<Seq<char>>::empty());
        r
    }

    /// Whether this is the sandbox root.
    pub fn is_root(&self) -> (b: bool)
        ensures
            b == (self@.len() == 0),
    {
        self.0.as_str().unicode_len() == 0
    }

    /// The path text, without a leading `/`.
    pub fn as_str(&self) -> (s: &str)
        ensures
            s@ == self@,
    {
        self.0.as_str()
    }

    /// The path as shown to a user: with a leading `/`.
    pub fn display(&self) -> (s: String)
        ensures
            s@ == seq!['/'] + self@,
    {
        let mut out: Vec<char> = Vec::new();
        out.push('/');
        let cs = chars_of(self.0.as_str());
        push_all(&mut out, cs.as_slice());
        string_from_chars(out.as_slice())
    }


    /// Joins one component onto this path. The component must be a single
    /// name: not empty, not `..`, without `/` or NUL.
    pub fn join(&self, component: &str) -> (r: Result<Self, SandboxPathError>)
        ensures
            match (r, join_component(self@, component@)) {
                (Ok(p), Ok(v)) => p@ == v,
                (Err(e), Err(f)) => e.view() == f,
                _ => false,
            },
            r matches Ok(p) ==> is_normal(p@),
    {
        proof {
            use_type_invariant(self);
        }
        let c = chars_of(component);
        if c.len() == 0 {
            return Err(SandboxPathError::EmptyComponent(component.to_owned()));
        }
        let dd = ['.', '.'];
        if chars_eq(c.as_slice(), dd.as_slice()) {
            return Err(SandboxPathError::ParentComponent(component.to_owned()));
        }
        if contains_char(c.as_slice(), '/') || contains_char(c.as_slice(), '\0') {
            return Err(SandboxPathError::EmptyComponent(component.to_owned()));
        }
        let base = chars_of(self.0.as_str());
        if base.len() == 0 {
            proof {
                lemma_split_single(c@, '/');
            }
            let res = SandboxPath(component.to_owned());
            proof {
                use_type_invariant(&res);
            }
            return Ok(res);
        }
        let mut out = base;
        out.push('/');
        push_all(&mut out, c.as_slice());
        proof {
            lemma_split_append(self@, c@, '/', 0);
            assert(out@ =~= self@ + seq!['/'] + c@);
            assert forall|k: int| 0 <= k < components(out@).len() implies (#[trigger] components(
                out@,
            )[k]).len() > 0 && components(out@)[k] != dot_dot() by {
                if k < components(self@).len() {
                    assert(components(out@)[k] == components(self@)[k]);
                }
            }
            if out@.contains('\0') {
                let j = choose|j: int| 0 <= j < out@.len() && out@[j] == '\0';
                if j < self@.len() {
                    assert(self@[j] == '\0');
                } else if j > self@.len() {
                    assert(c@[j - self@.len() - 1] == '\0');
                }
            }
        }
        let res = SandboxPath(string_from_chars(out.as_slice()));
        proof {
            use_type_invariant(&res);
        }
        Ok(res)
    }

    /// The parent directory; `None` for the root.
    pub fn parent(&self) -> (r: Option<Self>)
        ensures
            match (r, parent_of(self@)) {
                (Some(p), Some(v)) => p@ == v,
                (None, None) => true,
                _ => false,
            },
            r matches Some(p) ==> is_normal(p@),
    {
        proof {
            use_type_invariant(self);
        }
        let cs = chars_of(self.0.as_str());
        if cs.len() == 0 {
            return None;
        }
        let mut j = cs.len();
        while j > 0 && cs[j - 1] != '/'
            invariant
                0 <= j <= cs@.len(),
                cs@ == self@,
                last_pos(cs@, cs@.len() as int, '/') == last_pos(cs@, j as int, '/'),
            decreases j,
        {
            j = j - 1;
        }
        if j == 0 {
            let res = SandboxPath::root();
            proof {
                use_type_invariant(&res);
            }
            return Some(res);
        }
        let k = j - 1;
        let ghost p = self@;
        let ghost x = p.subrange(0, k as int);
        let ghost y = p.subrange(k + 1, p.len() as int);
        proof {
            lemma_last_pos(p, p.len() as int, '/');
            assert(p =~= x + seq!['/'] + y);
            assert(!y.contains('/')) by {
                if y.contains('/') {
                    let m = choose|m: int| 0 <= m < y.len() && y[m] == '/';
                    assert(p[k + 1 + m] == '/');
                }
            }
            lemma_split_append(x, y, '/', 0);
            if x.len() == 0 {
                lemma_char_pos_at(x, 0, 0, '/');
                assert(split_on(x, '/') == seq![x.subrange(0, 0)]);
                assert(components(p)[0].len() == 0);
            }
            assert(split_on(x, '/') =~= components(p).drop_last());
            assert forall|m: int| 0 <= m < components(x).len() implies (#[trigger] components(
                x,
            )[m]).len() > 0 && components(x)[m] != dot_dot() by {
                assert(components(x)[m] == components(p)[m]);
            }
            if x.contains('\0') {
                let m = choose|m: int| 0 <= m < x.len() && x[m] == '\0';
                assert(p[m] == '\0');
            }
        }
        let mut out: Vec<char> = Vec::new();
        let mut i: usize = 0;
        while i < k
            invariant
                i <= k < cs@.len(),
                out@ == cs@.subrange(0, i as int),
            decreases k - i,
        {
            out.push(cs[i]);
            i = i + 1;
            assert(out@ =~= cs@.subrange(0, i as int));
        }
        let res = SandboxPath(string_from_chars(out.as_slice()));
        proof {
            use_type_invariant(&res);
        }
        Some(res)
    }

    /// The parent directory and the name by which the view is asked about
    /// this entry; `None` for the root, which has neither.
    pub fn place(&self) -> (r: Option<(SandboxPath, String)>)
        ensures
            match r {
                Some((d, n)) => entry_place(self@) == Some((d@, n@)),
                None => entry_place(self@) is None,
            },
    {
        match self.file_name() {
            None => None,
            Some(name) => match self.parent() {
                Some(p) => Some((p, name)),
                None => None,
            },
        }
    }

    /// The last component; `None` for the root.
    pub fn file_name(&self) -> (r: Option<String>)
        ensures
            match (r, file_name_of(self@)) {
                (Some(n), Some(v)) => n@ == v,
                (None, None) => true,
                _ => false,
            },
    {
        let cs = chars_of(self.0.as_str());
        if cs.len() == 0 {
            return None;
        }
        let mut j = cs.len();
        while j > 0 && cs[j - 1] != '/'
            invariant
                0 <= j <= cs@.len(),
                cs@ == self@,
                last_pos(cs@, cs@.len() as int, '/') == last_pos(cs@, j as int, '/'),
            decreases j,
        {
            j = j - 1;
        }
        let mut out: Vec<char> = Vec::new();
        let mut i = j;
        while i < cs.len()
            invariant
                j <= i <= cs@.len(),
                out@ == cs@.subrange(j as int, i as int),
            decreases cs.len() - i,
        {
            out.push(cs[i]);
            i = i + 1;
            assert(out@ =~= cs@.subrange(j as int, i as int));
        }
        Some(string_from_chars(out.as_slice()))
    }

    /// Resolves `raw`, as typed relative to this directory: a leading `/`
    /// restarts from the sandbox root, `.` and empty components are
    /// skipped, and `..` goes up one level but never above the root.
    pub fn resolve_relative(&self, raw: &str) -> (r: Result<Self, SandboxPathError>)
        ensures
            match (r, resolve_path(self@, raw@)) {
                (Ok(p), Ok(v)) => p@ == v,
                (Err(e), Err(f)) => e.view() == f,
                _ => false,
            },
            r matches Ok(p) ==> is_normal(p@),
    {
        proof {
            use_type_invariant(self);
            lemma_normal_components(self@);
        }
        let rc = chars_of(raw);
        if contains_char(rc.as_slice(), '\0') {
            return Err(SandboxPathError::ContainsNul);
        }
        let base_chars = chars_of(self.0.as_str());
        let mut parts: Vec<Vec<char>> = if rc.len() > 0 && rc[0] == '/' {
            Vec::new()
        } else if base_chars.len() == 0 {
            Vec::new()
        } else {
            split_chars(base_chars.as_slice(), '/')
        };
        let ghost base = parts@.map_values(|p: Vec<char>| p@);
        assert(base =~= (if rc@.len() > 0 && rc@[0] == '/' {
            Seq::<Seq<char>>::empty()
        } else {
            components(self@)
        }));
        let comps = split_chars(rc.as_slice(), '/');
        let ghost cv = comps@.map_values(|p: Vec<char>| p@);
        let dd = ['.', '.'];
        let d = ['.'];
        let mut i: usize = 0;
        while i < comps.len()
            invariant
                cv == comps@.map_values(|p: Vec<char>| p@),
                dd@ == dot_dot(),
                d@ == dot(),
                i <= comps@.len(),
                resolve_parts(cv, 0, base) == resolve_parts(
                    cv,
                    i as int,
                    parts@.map_values(|p: Vec<char>| p@),
                ),
            decreases comps.len() - i,
        {
            let c = &comps[i];
            let ghost before = parts@.map_values(|p: Vec<char>| p@);
            assert(cv[i as int] == c@);
            if c.len() == 0 || chars_eq(c.as_slice(), d.as_slice()) {
            } else if chars_eq(c.as_slice(), dd.as_slice()) {
                if parts.len() > 0 {
                    parts.pop();
                    assert(parts@.map_values(|p: Vec<char>| p@) =~= before.drop_last());
                }
            } else {
                parts.push(c.clone());
                assert(parts@.map_values(|p: Vec<char>| p@) =~= before.push(c@));
            }
            i = i + 1;
        }
        let joined = join_strings(&parts, "/");
        proof {
            reveal_strlit("/");
            assert("/"@ =~= seq!['/']);
            lemma_split_parts_clean(raw@, '/', 0);
            assert forall|k: int| 0 <= k < cv.len() implies !(#[trigger] cv[k]).contains('/')
                && !cv[k].contains('\0') by {
                if cv[k].contains('\0') {
                    assert(raw@.contains('\0'));
                }
            }
            lemma_resolve_parts_named(cv, 0, base);
            lemma_join_normal(resolve_parts(cv, 0, base));
        }
        let res = SandboxPath(string_from_chars(joined.as_slice()));
        proof {
            use_type_invariant(&res);
        }
        Ok(res)
    }

}

#[verifier::external_type_specification]
#[verifier::external_body]
pub struct ExPathBuf(std::path::PathBuf);

#[verifier::external_type_specification]
#[verifier::external_body]
pub struct ExPath(std::path::Path);

/// A host path taken only from configuration, never from a command.
pub struct HostManagedPath(std::path::PathBuf);

/// Calls `PathBuf::as_path`: borrows the path a `PathBuf` owns.
#[verifier::external_body]
fn borrow_path(p: &std::path::PathBuf) -> &std::path::Path {
    p.as_path()
}

impl HostManagedPath {
    /// The configured host path, as given.
    pub closed spec fn path_buf(&self) -> std::path::PathBuf {
        self.0
    }

    /// Wraps a path read from configuration.
    pub fn from_config(path: std::path::PathBuf) -> (r: Self)
        ensures
            r.path_buf() == path,
    {
        HostManagedPath(path)
    }

    /// The configured host path.
    pub fn as_path(&self) -> &std::path::Path {
        borrow_path(&self.0)
    }
}

} // verus!
