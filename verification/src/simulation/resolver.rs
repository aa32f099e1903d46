//! The layered view of a session's filesystem. Reads fall through an
//! ordered stack of layers, top to bottom, and stop at a whiteout (a
//! `.wh.NAME` marker that records `NAME` as deleted in the layers below);
//! writes land in the top layer only, after copying up what they change.
//! Each layer is a directory on the host, reached through its own contained
//! resolver; the stack's rules are verified here for whatever the layers
//! answer.

use vstd::prelude::*;
use crate::fs_abstraction::{split_chars, split_on};
use crate::order::{char_views, insert_sorted, remove_sorted, strictly_sorted};
use crate::sandbox::worker::{child_path, FileKind, StatInfo};
use crate::simulation::diff::string_views;
use crate::text::{chars_of, has_prefix, push_str, starts_with, string_from_chars};

verus! {

/// An error from the layered view: whether the path was simply not found
/// (which some handlers forgive), and the error as shown.
#[derive(Debug, Clone, PartialEq, Eq)]
pub struct FsError {
    pub not_found: bool,
    pub message: String,
}

impl FsError {
    /// An error of the handlers' own, which is never a "not found".
    pub fn invalid(message: &str) -> (e: Self)
        ensures
            !e.not_found,
            e.message@ == message@,
    {
        FsError { not_found: false, message: message.to_string() }
    }
}

/// The operations of the layered view, on paths relative to the sandbox
/// root (the root itself is the empty path).
pub trait LayeredView {
    /// What kind of entry `rel_path` is, and its length.
    fn stat(&self, rel_path: &str) -> Result<StatInfo, FsError>;

    /// The bytes of the file `rel_path`.
    fn read_file(&self, rel_path: &str) -> Result<Vec<u8>, FsError>;

    /// The names in the directory `rel_path`, merged across the layers.
    fn read_dir(&self, rel_path: &str) -> Result<Vec<String>, FsError>;

    /// Creates or overwrites `rel_path` with exactly `contents`.
    fn write_file(&self, rel_path: &str, contents: &[u8]) -> Result<(), FsError>;

    /// Creates `rel_path` empty if it does not exist.
    fn touch(&self, rel_path: &str) -> Result<(), FsError>;

    /// Creates the directory `name` in `parent_rel`; refused if it exists.
    fn mkdir(&self, parent_rel: &str, name: &str) -> Result<(), FsError>;

    /// Removes `name` from `parent_rel`; a directory only when `recursive`.
    fn remove(&self, parent_rel: &str, name: &str, recursive: bool) -> Result<(), FsError>;

    /// Sets the permission bits of `rel_path`.
    fn chmod(&self, rel_path: &str, mode: u32) -> Result<(), FsError>;

    /// Sets the owner and group of `rel_path`, each only where given.
    fn chown(&self, rel_path: &str, uid: Option<u32>, gid: Option<u32>) -> Result<(), FsError>;
}


/// The operations of one layer directory, each contained beneath it (the
/// host resolves every path with `openat2` and `RESOLVE_BENEATH`). Names
/// passed separately from their parent are single path components.
pub trait LayerOps {
    fn stat(&self, rel_path: &str) -> Result<StatInfo, FsError>;
    fn read_file(&self, rel_path: &str) -> Result<Vec<u8>, FsError>;
    fn read_dir(&self, rel_path: &str) -> Result<Vec<String>, FsError>;
    fn touch(&self, rel_path: &str) -> Result<(), FsError>;
    fn write_new_file(&self, rel_path: &str, contents: &[u8]) -> Result<(), FsError>;
    fn mkdir(&self, parent_rel: &str, name: &str) -> Result<(), FsError>;
    fn remove_file(&self, parent_rel: &str, name: &str) -> Result<(), FsError>;
    fn remove_dir_recursive(&self, parent_rel: &str, name: &str) -> Result<(), FsError>;
    fn create_whiteout(&self, parent_rel: &str, name: &str) -> Result<(), FsError>;
    fn has_whiteout(&self, parent_rel: &str, name: &str) -> bool;
    fn set_mode(&self, parent_rel: &str, name: &str, mode: u32) -> Result<(), FsError>;
    fn set_owner(&self, parent_rel: &str, name: &str, uid: Option<u32>, gid: Option<u32>) -> Result<(), FsError>;
}

/// The message for a path that no layer shows.
pub open spec fn not_found_text(rel: Seq<char>) -> Seq<char> {
    rel + ": not found in any layer"@
}

/// The error for a path that no layer shows.
fn not_found(rel_path: &str) -> (e: FsError)
    ensures
        e.not_found,
        e.message@ == not_found_text(rel_path@),
{
    let mut out = chars_of(rel_path);
    push_str(&mut out, ": not found in any layer");
    FsError { not_found: true, message: string_from_chars(out.as_slice()) }
}

/// What one layer showed for a path during a lookup.
pub enum LayerAnswer<T> {
    /// A whiteout in this layer or one above it hides the path.
    Hidden,
    /// The layer has the path, with this answer.
    Found(T),
    /// The layer does not have the path.
    Missing,
    /// The layer could not be asked, with this error.
    Failed(FsError),
}

/// What a lookup comes to.
pub enum LookupOutcome<T> {
    Value(T),
    NotFound,
    Error(FsError),
}

/// The outcome of a lookup from the layers' answers, top first: the first
/// answer that is not `Missing` decides (a whiteout hides the path, a
/// layer that has it gives its answer, a failure gives its error), and a
/// path no layer has is not found.
pub open spec fn lookup_outcome<T>(answers: Seq<LayerAnswer<T>>) -> LookupOutcome<T>
    decreases answers.len(),
{
    if answers.len() == 0 {
        LookupOutcome::NotFound
    } else {
        match answers[0] {
            LayerAnswer::Hidden => LookupOutcome::NotFound,
            LayerAnswer::Found(x) => LookupOutcome::Value(x),
            LayerAnswer::Missing => lookup_outcome(answers.drop_first()),
            LayerAnswer::Failed(e) => LookupOutcome::Error(e),
        }
    }
}

proof fn lemma_lookup_errors<T>(answers: Seq<LayerAnswer<T>>)
    requires
        forall|k: int| 0 <= k < answers.len() ==> (#[trigger] answers[k] matches LayerAnswer::Failed(e) ==> !e.not_found),
    ensures
        lookup_outcome(answers) matches LookupOutcome::Error(e) ==> !e.not_found,
    decreases answers.len(),
{
    if answers.len() > 0 {
        assert(answers[0] == answers[0]);
        assert forall|k: int| 0 <= k < answers.drop_first().len() implies (#[trigger] answers.drop_first()[k] matches LayerAnswer::Failed(e)
            ==> !e.not_found) by {
            assert(answers.drop_first()[k] == answers[k + 1]);
        }
        lemma_lookup_errors(answers.drop_first());
    }
}

/// The answer of a lookup over `rel_path` from the layers' answers, top
/// first, as `lookup_outcome` says; not found carries the usual message.
pub fn resolve_lookup<T>(answers: Vec<LayerAnswer<T>>, rel_path: &str) -> (r: Result<T, FsError>)
    ensures
        match lookup_outcome(answers@) {
            LookupOutcome::Value(x) => r == Ok::<T, FsError>(x),
            LookupOutcome::Error(e) => r == Err::<T, FsError>(e),
            LookupOutcome::NotFound => r matches Err(e) && e.not_found && e.message@ == not_found_text(rel_path@),
        },
{
    let ghost whole = answers@;
    let mut rest = answers;
    while rest.len() > 0
        invariant
            lookup_outcome(rest@) == lookup_outcome(whole),
            whole == answers@,
        decreases rest@.len(),
    {
        let ghost before = rest@;
        let first = rest.remove(0);
        assert(rest@ =~= before.drop_first());
        assert(first == before[0]);
        match first {
            LayerAnswer::Hidden => return Err(not_found(rel_path)),
            LayerAnswer::Found(x) => return Ok(x),
            LayerAnswer::Missing => {},
            LayerAnswer::Failed(e) => return Err(e),
        }
    }
    Err(not_found(rel_path))
}

/// The first layer, top down, with something to say about a path decides
/// a lookup: the layers above it that lack the path are passed over (reads
/// fall through), a layer that has the path shadows every layer below it,
/// and a whiteout at or above a layer hides the path from there down. A
/// path that no layer has is not found.
pub proof fn lemma_first_answer_decides<T>(answers: Seq<LayerAnswer<T>>, k: int)
    requires
        0 <= k <= answers.len(),
        forall|j: int| 0 <= j < k ==> #[trigger] answers[j] is Missing,
    ensures
        k == answers.len() ==> lookup_outcome(answers) is NotFound,
        k < answers.len() ==> lookup_outcome(answers) == match answers[k] {
            LayerAnswer::Hidden => LookupOutcome::NotFound,
            LayerAnswer::Found(x) => LookupOutcome::Value(x),
            LayerAnswer::Missing => lookup_outcome(answers.skip(k + 1)),
            LayerAnswer::Failed(e) => LookupOutcome::Error(e),
        },
    decreases k,
{
    if k > 0 {
        let rest = answers.drop_first();
        assert forall|j: int| 0 <= j < k - 1 implies #[trigger] rest[j] is Missing by {
            assert(rest[j] == answers[j + 1]);
        }
        lemma_first_answer_decides(rest, k - 1);
        assert(answers[0] is Missing);
        if k < answers.len() {
            assert(rest[k - 1] == answers[k]);
            assert(rest.skip(k) =~= answers.skip(k + 1));
        }
    }
}

/// Whether a directory entry is a whiteout marker.
pub open spec fn is_whiteout_name(name: Seq<char>) -> bool {
    has_prefix(name, ".wh."@)
}

/// What one layer shows of whiteouts along a path: for each component,
/// whether the layer has a whiteout for it in the directory the components
/// before it name.
fn whiteout_marks<L: LayerOps>(layer: &L, components: &Vec<String>) -> (r: Vec<bool>)
    ensures
        r@.len() == components@.len(),
{
    let mut marks: Vec<bool> = Vec::new();
    let mut parent = String::new();
    let mut k: usize = 0;
    while k < components.len()
        invariant
            k <= components@.len(),
            marks@.len() == k,
        decreases components.len() - k,
    {
        marks.push(layer.has_whiteout(parent.as_str(), components[k].as_str()));
        parent = child_path(parent.as_str(), components[k].as_str());
        k = k + 1;
    }
    marks
}

/// Whether layer `i` is hidden given the whiteout marks of the layers
/// above it and its own, top first: some layer from the top down to `i`
/// marks the path or one of its ancestors.
pub open spec fn hidden_from_top(marks: Seq<Seq<bool>>, i: int) -> bool
    decreases i + 1,
{
    if i < 0 || marks.len() == 0 {
        false
    } else {
        hidden_from_top(marks, i - 1) || (i < marks.len() && marks[i].contains(true))
    }
}

/// Whether the path is hidden at layer `layer_index`, from the whiteout
/// marks of the layers from the top down to it (`marks[i][k]`: layer `i`
/// has a whiteout for component `k`).
pub fn hidden_by_marks(marks: &Vec<Vec<bool>>, components: usize, layer_index: usize) -> (r: bool)
    requires
        marks@.len() == layer_index + 1,
        forall|i: int| 0 <= i < marks@.len() ==> (#[trigger] marks@[i])@.len() == components,
    ensures
        r == hidden_from_top(marks@.map_values(|v: Vec<bool>| v@), layer_index as int),
        r == exists|i: int, k: int| 0 <= i <= layer_index && 0 <= k < marks@[i]@.len() && #[trigger] marks@[i]@[k],
{
    let ghost ms = marks@.map_values(|v: Vec<bool>| v@);
    let mut i: usize = 0;
    while i < marks.len()
        invariant
            i <= marks@.len(),
            marks@.len() == layer_index + 1,
            ms == marks@.map_values(|v: Vec<bool>| v@),
            ms.len() == marks@.len(),
            forall|m: int| 0 <= m < marks@.len() ==> (#[trigger] marks@[m])@.len() == components,
            !hidden_from_top(ms, i - 1),
            forall|m: int, k: int| 0 <= m < i && 0 <= k < marks@[m]@.len() ==> !#[trigger] marks@[m]@[k],
        decreases marks@.len() - i,
    {
        let mut k: usize = 0;
        while k < components
            invariant
                i < marks@.len(),
                k <= components,
                marks@.len() == layer_index + 1,
                ms == marks@.map_values(|v: Vec<bool>| v@),
                ms.len() == marks@.len(),
                marks@[i as int]@.len() == components,
                forall|j: int| 0 <= j < k ==> !#[trigger] marks@[i as int]@[j],
            decreases components - k,
        {
            if marks[i][k] {
                proof {
                    assert(ms[i as int] == marks@[i as int]@);
                    assert(ms[i as int].contains(true)) by {
                        assert(ms[i as int][k as int]);
                    }
                    assert(hidden_from_top(ms, i as int));
                    lemma_hidden_from_top_mono(ms, i as int, layer_index as int);
                    assert(marks@[i as int]@[k as int]);
                }
                return true;
            }
            k = k + 1;
        }
        proof {
            assert(ms[i as int] == marks@[i as int]@);
            assert(!ms[i as int].contains(true)) by {
                if ms[i as int].contains(true) {
                    let j = choose|j: int| 0 <= j < ms[i as int].len() && ms[i as int][j] == true;
                    assert(marks@[i as int]@[j]);
                }
            }
            assert(!hidden_from_top(ms, i as int));
        }
        i = i + 1;
    }
    false
}

proof fn lemma_hidden_from_top_mono(ms: Seq<Seq<bool>>, i: int, j: int)
    requires
        0 <= i <= j < ms.len(),
        hidden_from_top(ms, i),
    ensures
        hidden_from_top(ms, j),
    decreases j - i,
{
    if i < j {
        lemma_hidden_from_top_mono(ms, i, j - 1);
    }
}

/// A whiteout hides a path from its own layer down, whichever layer it is
/// in: if layer `i` marks the path or one of its ancestors, the path is
/// hidden at every layer `j` at or below `i`; and at a layer with no mark
/// at or above it, the path is not hidden.
pub proof fn lemma_whiteout_hides_below(ms: Seq<Seq<bool>>, i: int, k: int, j: int)
    requires
        0 <= i <= j < ms.len(),
        0 <= k < ms[i].len(),
        ms[i][k],
    ensures
        hidden_from_top(ms, j),
        forall|m: int| 0 <= m < ms.len() && !hidden_from_top(ms, m) ==> forall|n: int, q: int|
            0 <= n <= m && 0 <= q < ms[n].len() ==> !#[trigger] ms[n][q],
{
    assert(ms[i].contains(true)) by {
        assert(ms[i][k]);
    }
    lemma_hidden_from_top_mono(ms, i, j);
    assert forall|m: int| 0 <= m < ms.len() && !hidden_from_top(ms, m) implies forall|n: int, q: int|
        0 <= n <= m && 0 <= q < ms[n].len() ==> !#[trigger] ms[n][q] by {
        assert forall|n: int, q: int| 0 <= n <= m && 0 <= q < ms[n].len() implies !#[trigger] ms[n][q] by {
            if ms[n][q] {
                assert(ms[n].contains(true)) by {
                    assert(ms[n][q]);
                }
                lemma_hidden_from_top_mono(ms, n, m);
            }
        }
    }
}

/// A stack of layers, top (index 0, the only one ever written) first.
pub struct LayeredResolver<L> {
    layers: Vec<L>,
}

impl<L> LayeredResolver<L> {
    #[verifier::type_invariant]
    spec fn has_a_layer(self) -> bool {
        self.layers.len() > 0
    }
}

/// The parts of `parts` that are not empty, in order.
pub open spec fn nonempty_parts(parts: Seq<Seq<char>>) -> Seq<Seq<char>>
    decreases parts.len(),
{
    if parts.len() == 0 {
        Seq::empty()
    } else if parts.last().len() > 0 {
        nonempty_parts(parts.drop_last()).push(parts.last())
    } else {
        nonempty_parts(parts.drop_last())
    }
}

/// The non-empty components of a relative path.
fn path_components(rel_path: &str) -> (r: Vec<String>)
    ensures
        string_views(r@) == nonempty_parts(split_on(rel_path@, '/')),
{
    let cs = chars_of(rel_path);
    let parts = split_chars(cs.as_slice(), '/');
    let ghost pv = parts@.map_values(|p: Vec<char>| p@);
    let mut out: Vec<String> = Vec::new();
    let mut i: usize = 0;
    assert(pv.take(0) =~= Seq::<Seq<char>>::empty());
    assert(string_views(out@) =~= Seq::<Seq<char>>::empty());
    while i < parts.len()
        invariant
            i <= parts@.len(),
            pv == parts@.map_values(|p: Vec<char>| p@),
            string_views(out@) == nonempty_parts(pv.take(i as int)),
        decreases parts.len() - i,
    {
        assert(pv.take(i + 1).drop_last() =~= pv.take(i as int));
        assert(pv.take(i + 1).last() == parts@[i as int]@);
        if parts[i].len() > 0 {
            let ghost before = string_views(out@);
            out.push(string_from_chars(parts[i].as_slice()));
            assert(string_views(out@) =~= before.push(parts@[i as int]@));
        }
        i = i + 1;
    }
    assert(pv.take(i as int) =~= pv);
    out
}

/// Where the name of `rel` begins: just after its last `/`, or at 0 when
/// it has none.
pub open spec fn name_start(rel: Seq<char>) -> int
    decreases rel.len(),
{
    if rel.len() == 0 {
        0
    } else if rel.last() == '/' {
        rel.len() as int
    } else {
        name_start(rel.drop_last())
    }
}

/// A path split at its last `/` into parent and name; a path without one
/// is a name in the root.
fn split_parent(rel_path: &str) -> (r: (String, String))
    ensures
        name_start(rel_path@) == 0 ==> r.0@.len() == 0 && r.1@ == rel_path@,
        name_start(rel_path@) > 0 ==> r.0@ == rel_path@.subrange(0, name_start(rel_path@) - 1)
            && r.1@ == rel_path@.subrange(name_start(rel_path@), rel_path@.len() as int),
{
    let cs = chars_of(rel_path);
    let mut k: usize = cs.len();
    assert(cs@.take(k as int) =~= cs@);
    while k > 0 && cs[k - 1] != '/'
        invariant
            k <= cs@.len(),
            cs@ == rel_path@,
            name_start(cs@.take(k as int)) == name_start(cs@),
        decreases k,
    {
        assert(cs@.take(k as int).drop_last() =~= cs@.take(k - 1));
        k = k - 1;
    }
    proof {
        if k > 0 {
            assert(cs@.take(k as int).last() == cs@[k - 1]);
        }
        assert(cs@.take(cs@.len() as int) =~= cs@);
    }
    if k == 0 {
        return (String::new(), rel_path.to_string());
    }
    let parent = string_from_chars(slice_of(&cs, 0, k - 1).as_slice());
    let name = string_from_chars(slice_of(&cs, k, cs.len()).as_slice());
    (parent, name)
}

/// The characters of `cs` from `from` up to `to`.
fn slice_of(cs: &Vec<char>, from: usize, to: usize) -> (r: Vec<char>)
    requires
        from <= to <= cs@.len(),
    ensures
        r@ == cs@.subrange(from as int, to as int),
{
    let mut out: Vec<char> = Vec::new();
    let mut i = from;
    while i < to
        invariant
            from <= i <= to <= cs@.len(),
            out@ == cs@.subrange(from as int, i as int),
        decreases to - i,
    {
        out.push(cs[i]);
        i = i + 1;
        assert(out@ =~= cs@.subrange(from as int, i as int));
    }
    out
}

/// The whiteout marker's name for `name`.
fn whiteout_name(name: &str) -> (r: String)
    ensures
        r@ == ".wh."@ + name@,
{
    let mut out = chars_of(".wh.");
    push_str(&mut out, name);
    string_from_chars(out.as_slice())
}

/// Whether the strictly sorted `v` holds `x`.
fn holds(v: &Vec<Vec<char>>, x: &[char]) -> (r: bool)
    ensures
        r == char_views(v@).contains(x@),
{
    let mut i: usize = 0;
    while i < v.len()
        invariant
            i <= v@.len(),
            forall|k: int| 0 <= k < i ==> #[trigger] char_views(v@)[k] != x@,
        decreases v.len() - i,
    {
        if crate::text::chars_eq(v[i].as_slice(), x) {
            assert(char_views(v@)[i as int] == x@);
            return true;
        }
        i = i + 1;
    }
    false
}

impl<L: LayerOps> LayeredResolver<L> {
    /// A resolver over `layers`, top first; a stack needs at least one.
    pub fn from_layers(layers: Vec<L>) -> (r: Result<Self, FsError>)
        ensures
            layers@.len() == 0 <==> r is Err,
            r matches Err(e) ==> !e.not_found && e.message@ == "a mounted view must have at least one layer"@,
    {
        if layers.len() == 0 {
            return Err(FsError::invalid("a mounted view must have at least one layer"));
        }
        Ok(LayeredResolver { layers })
    }

    /// The layers, top first, handed back.
    pub fn into_layers(self) -> (v: Vec<L>)
        ensures
            v@.len() > 0,
    {
        proof {
            use_type_invariant(&self);
        }
        self.layers
    }

    /// The top layer, the only one written.
    fn top(&self) -> (r: &L)
        ensures
            *r == self.layers@[0],
    {
        proof {
            use_type_invariant(self);
        }
        &self.layers[0]
    }

    /// Whether `rel_path` (given by its components) or one of its
    /// ancestors has a whiteout in any of the layers from the top down to
    /// `layer_index`: every one of those layers is asked, not only the top.
    fn is_hidden_by_whiteout(&self, components: &Vec<String>, layer_index: usize) -> (r: bool)
        requires
            layer_index < self.layers@.len(),
        ensures
            components@.len() == 0 ==> !r,
    {
        let mut marks: Vec<Vec<bool>> = Vec::new();
        let mut i: usize = 0;
        while i < self.layers.len() && i <= layer_index
            invariant
                layer_index < self.layers@.len(),
                i <= layer_index + 1,
                marks@.len() == i,
                forall|m: int| 0 <= m < i ==> (#[trigger] marks@[m])@.len() == components@.len(),
            decreases self.layers@.len() - i,
        {
            let layer_marks = whiteout_marks(&self.layers[i], components);
            marks.push(layer_marks);
            i = i + 1;
        }
        let r = hidden_by_marks(&marks, components.len(), layer_index);
        proof {
            if components@.len() == 0 {
                if r {
                    let (m, k) = choose|m: int, k: int|
                        0 <= m <= layer_index && 0 <= k < marks@[m]@.len() && #[trigger] marks@[m]@[k];
                    assert(marks@[m]@.len() == 0);
                }
            }
        }
        r
    }

    /// Removes a whiteout for `name` left in the top layer, so that it never
    /// stands beside the entry it once recorded as deleted.
    fn clear_stale_whiteout(&self, parent_rel: &str, name: &str) {
        let marker = whiteout_name(name);
        let _ = self.top().remove_file(parent_rel, marker.as_str());
    }

    /// Creates in the top layer the directories along `dir_rel` that exist
    /// lower in the stack but not yet on top; stops quietly at the first
    /// component that is no directory anywhere.
    fn ensure_top_dir_chain(&self, dir_rel: &str) -> (r: Result<(), FsError>)
        ensures
            nonempty_parts(split_on(dir_rel@, '/')).len() == 0 ==> r is Ok,
    {
        let comps = path_components(dir_rel);
        assert(string_views(comps@).len() == comps@.len());
        let mut parent = String::new();
        let mut i: usize = 0;
        while i < comps.len()
            invariant
                i <= comps@.len(),
                comps@.len() == nonempty_parts(split_on(dir_rel@, '/')).len(),
            decreases comps.len() - i,
        {
            let child = child_path(parent.as_str(), comps[i].as_str());
            if self.top().stat(child.as_str()).is_err() {
                match self.stat(child.as_str()) {
                    Ok(info) => {
                        if info.kind == FileKind::Directory {
                            self.top().mkdir(parent.as_str(), comps[i].as_str())?;
                        } else {
                            return Ok(());
                        }
                    },
                    Err(_) => return Ok(()),
                }
            }
            parent = child;
            i = i + 1;
        }
        Ok(())
    }

    /// Gives `rel_path` a real copy in the top layer before its mode or
    /// owner changes: a directory shell, or the file with its content.
    fn ensure_top_copy(&self, rel_path: &str) -> (r: Result<(), FsError>) {
        if self.top().stat(rel_path).is_ok() {
            return Ok(());
        }
        let info = self.stat(rel_path)?;
        if info.kind == FileKind::Directory {
            let (parent, name) = split_parent(rel_path);
            self.ensure_top_dir_chain(parent.as_str())?;
            self.top().mkdir(parent.as_str(), name.as_str())
        } else {
            self.touch(rel_path)
        }
    }
}

impl<L: LayerOps> LayeredView for LayeredResolver<L> {
    /// The first layer, top down, that has `rel_path`, unless a whiteout at
    /// or above it hides the path first.
    fn stat(&self, rel_path: &str) -> (r: Result<StatInfo, FsError>)
        ensures
            r matches Err(e) ==> (e.not_found ==> e.message@ == not_found_text(rel_path@)),
    {
        proof {
            use_type_invariant(self);
        }
        let comps = path_components(rel_path);
        let mut answers: Vec<LayerAnswer<StatInfo>> = Vec::new();
        let mut i: usize = 0;
        while i < self.layers.len()
            invariant
                i <= self.layers@.len(),
                forall|k: int| 0 <= k < answers@.len() ==> (#[trigger] answers@[k] matches LayerAnswer::Failed(e)
                    ==> !e.not_found),
            decreases self.layers.len() - i,
        {
            if self.is_hidden_by_whiteout(&comps, i) {
                answers.push(LayerAnswer::Hidden);
                break;
            }
            match self.layers[i].stat(rel_path) {
                Ok(info) => {
                    answers.push(LayerAnswer::Found(info));
                    break;
                },
                Err(e) => {
                    if e.not_found {
                        answers.push(LayerAnswer::Missing);
                    } else {
                        answers.push(LayerAnswer::Failed(e));
                        break;
                    }
                },
            }
            i = i + 1;
        }
        proof {
            lemma_lookup_errors(answers@);
        }
        resolve_lookup(answers, rel_path)
    }

    /// The bytes of the first layer, top down, that has `rel_path`, unless
    /// a whiteout at or above it hides the path first.
    fn read_file(&self, rel_path: &str) -> (r: Result<Vec<u8>, FsError>)
        ensures
            r matches Err(e) ==> (e.not_found ==> e.message@ == not_found_text(rel_path@)),
    {
        proof {
            use_type_invariant(self);
        }
        let comps = path_components(rel_path);
        let mut answers: Vec<LayerAnswer<Vec<u8>>> = Vec::new();
        let mut i: usize = 0;
        while i < self.layers.len()
            invariant
                i <= self.layers@.len(),
                forall|k: int| 0 <= k < answers@.len() ==> (#[trigger] answers@[k] matches LayerAnswer::Failed(e)
                    ==> !e.not_found),
            decreases self.layers.len() - i,
        {
            if self.is_hidden_by_whiteout(&comps, i) {
                answers.push(LayerAnswer::Hidden);
                break;
            }
            match self.layers[i].read_file(rel_path) {
                Ok(contents) => {
                    answers.push(LayerAnswer::Found(contents));
                    break;
                },
                Err(e) => {
                    if e.not_found {
                        answers.push(LayerAnswer::Missing);
                    } else {
                        answers.push(LayerAnswer::Failed(e));
                        break;
                    }
                },
            }
            i = i + 1;
        }
        proof {
            lemma_lookup_errors(answers@);
        }
        resolve_lookup(answers, rel_path)
    }

    /// The names in `rel_path` across all layers: in order, each once,
    /// without the whiteout markers, and without any name a higher layer
    /// has whited out. Not found when no layer has it as a directory or a
    /// whiteout hides it.
    fn read_dir(&self, rel_path: &str) -> (r: Result<Vec<String>, FsError>)
        ensures
            r matches Ok(names) ==> strictly_sorted(string_views(names@)) && forall|k: int|
                0 <= k < names@.len() ==> !is_whiteout_name(#[trigger] names@[k]@),
            r matches Err(e) ==> e.not_found && e.message@ == not_found_text(rel_path@),
    {
        proof {
            use_type_invariant(self);
            reveal_strlit(".wh.");
        }
        let comps = path_components(rel_path);
        let prefix = chars_of(".wh.");
        let mut visible: Vec<Vec<char>> = Vec::new();
        let mut hidden: Vec<Vec<char>> = Vec::new();
        let mut found = false;
        let mut i: usize = 0;
        while i < self.layers.len()
            invariant
                i <= self.layers@.len(),
                prefix@ == ".wh."@,
                prefix@.len() == 4,
                strictly_sorted(char_views(visible@)),
                strictly_sorted(char_views(hidden@)),
                forall|k: int| 0 <= k < visible@.len() ==> !is_whiteout_name(#[trigger] char_views(visible@)[k]),
            decreases self.layers.len() - i,
        {
            if self.is_hidden_by_whiteout(&comps, i) {
                return Err(not_found(rel_path));
            }
            match self.layers[i].read_dir(rel_path) {
                Ok(entries) => {
                    found = true;
                    let mut j: usize = 0;
                    while j < entries.len()
                        invariant
                            j <= entries@.len(),
                            prefix@ == ".wh."@,
                            prefix@.len() == 4,
                            strictly_sorted(char_views(visible@)),
                            strictly_sorted(char_views(hidden@)),
                            forall|k: int| 0 <= k < visible@.len() ==> !is_whiteout_name(#[trigger] char_views(visible@)[k]),
                        decreases entries.len() - j,
                    {
                        let name = chars_of(entries[j].as_str());
                        if starts_with(name.as_slice(), prefix.as_slice()) {
                            let target = slice_of(&name, 4, name.len());
                            insert_sorted(&mut hidden, target.clone());
                            remove_sorted(&mut visible, &target);
                            proof {
                                assert forall|k: int| 0 <= k < visible@.len() implies !is_whiteout_name(
                                    #[trigger] char_views(visible@)[k],
                                ) by {
                                    assert(char_views(visible@).contains(char_views(visible@)[k]));
                                }
                            }
                        } else if !holds(&hidden, name.as_slice()) {
                            let ghost before = char_views(visible@);
                            let ghost nv = name@;
                            insert_sorted(&mut visible, name);
                            proof {
                                assert forall|k: int| 0 <= k < visible@.len() implies !is_whiteout_name(
                                    #[trigger] char_views(visible@)[k],
                                ) by {
                                    let y = char_views(visible@)[k];
                                    assert(char_views(visible@).contains(y));
                                    if y != nv {
                                        let m = choose|m: int| 0 <= m < before.len() && before[m] == y;
                                    }
                                }
                            }
                        }
                        j = j + 1;
                    }
                },
                Err(_) => {},
            }
            i = i + 1;
        }
        if !found {
            return Err(not_found(rel_path));
        }
        let mut out: Vec<String> = Vec::new();
        let mut k: usize = 0;
        while k < visible.len()
            invariant
                k <= visible@.len(),
                out@.len() == k,
                forall|m: int| 0 <= m < k ==> #[trigger] out@[m]@ == char_views(visible@)[m],
            decreases visible.len() - k,
        {
            out.push(string_from_chars(visible[k].as_slice()));
            k = k + 1;
        }
        assert(string_views(out@) =~= char_views(visible@));
        Ok(out)
    }

    /// Writes `contents` to `rel_path` in the top layer, whatever a lower
    /// layer holds there.
    fn write_file(&self, rel_path: &str, contents: &[u8]) -> (r: Result<(), FsError>) {
        let (parent, name) = split_parent(rel_path);
        self.ensure_top_dir_chain(parent.as_str())?;
        let result = self.top().write_new_file(rel_path, contents);
        if result.is_ok() {
            self.clear_stale_whiteout(parent.as_str(), name.as_str());
        }
        result
    }

    /// Creates `rel_path` in the top layer unless it is there: with the
    /// content of a lower layer's copy when one shows, else empty.
    fn touch(&self, rel_path: &str) -> (r: Result<(), FsError>) {
        if self.top().stat(rel_path).is_ok() {
            return Ok(());
        }
        let (parent, name) = split_parent(rel_path);
        self.ensure_top_dir_chain(parent.as_str())?;
        let result = match self.read_file(rel_path) {
            Ok(contents) => self.top().write_new_file(rel_path, contents.as_slice()),
            Err(e) => {
                if e.not_found {
                    self.top().touch(rel_path)
                } else {
                    Err(e)
                }
            },
        };
        if result.is_ok() {
            self.clear_stale_whiteout(parent.as_str(), name.as_str());
        }
        result
    }

    /// Creates the directory `name` in `parent_rel`, refused when the path
    /// shows in any layer already.
    fn mkdir(&self, parent_rel: &str, name: &str) -> (r: Result<(), FsError>) {
        let rel_path = child_path(parent_rel, name);
        if self.stat(rel_path.as_str()).is_ok() {
            let mut msg = chars_of(rel_path.as_str());
            push_str(&mut msg, ": already exists");
            return Err(FsError { not_found: false, message: string_from_chars(msg.as_slice()) });
        }
        self.ensure_top_dir_chain(parent_rel)?;
        let result = self.top().mkdir(parent_rel, name);
        if result.is_ok() {
            self.clear_stale_whiteout(parent_rel, name);
        }
        result
    }

    /// Removes `name` from `parent_rel` (a directory only when `recursive`):
    /// deletes the top layer's real copy, and leaves a whiteout when a lower
    /// layer, which cannot be changed, has the path too.
    fn remove(&self, parent_rel: &str, name: &str, recursive: bool) -> (r: Result<(), FsError>) {
        proof {
            use_type_invariant(self);
        }
        let rel_path = child_path(parent_rel, name);
        let info = self.stat(rel_path.as_str())?;
        if info.kind == FileKind::Directory && !recursive {
            let mut msg = chars_of(rel_path.as_str());
            push_str(&mut msg, ": is a directory");
            return Err(FsError { not_found: false, message: string_from_chars(msg.as_slice()) });
        }
        let is_dir = info.kind == FileKind::Directory;
        self.ensure_top_dir_chain(parent_rel)?;
        let top_removal = if is_dir {
            self.top().remove_dir_recursive(parent_rel, name)
        } else {
            self.top().remove_file(parent_rel, name)
        };
        if let Err(e) = top_removal {
            if !e.not_found {
                return Err(e);
            }
        }
        let mut in_lower = false;
        let mut i: usize = 1;
        while i < self.layers.len()
            invariant
                1 <= i <= self.layers@.len(),
            decreases self.layers.len() - i,
        {
            if self.layers[i].stat(rel_path.as_str()).is_ok() {
                in_lower = true;
                break;
            }
            i = i + 1;
        }
        if in_lower {
            self.top().create_whiteout(parent_rel, name)?;
        }
        Ok(())
    }

    /// Sets the mode of `rel_path`, on its copy in the top layer.
    fn chmod(&self, rel_path: &str, mode: u32) -> (r: Result<(), FsError>) {
        self.ensure_top_copy(rel_path)?;
        let (parent, name) = split_parent(rel_path);
        self.top().set_mode(parent.as_str(), name.as_str(), mode)
    }

    /// Sets the owner and group of `rel_path`, on its copy in the top layer.
    fn chown(&self, rel_path: &str, uid: Option<u32>, gid: Option<u32>) -> (r: Result<(), FsError>) {
        self.ensure_top_copy(rel_path)?;
        let (parent, name) = split_parent(rel_path);
        self.top().set_owner(parent.as_str(), name.as_str(), uid, gid)
    }
}

} // verus!
