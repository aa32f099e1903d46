//! The simulation diff: a walk over the transient layer that records, for
//! each entry it meets, what it means against the layers beneath; and the
//! simulation pass that runs a command over the layers and computes it.

use vstd::prelude::*;
use sha2::Digest;
use crate::handlers::fs_ext::MAX_WALK_DEPTH;
use crate::handlers::{dispatch, handler_of, session_kept, CommandResult, Handler, ShellHost};
use crate::parser::ParsedCommand;
use crate::sandbox::worker::{child_path, FileKind};
use crate::session::TerminalSession;
use crate::simulation::resolver::{FsError, LayerOps, LayeredResolver, LayeredView};
use crate::text::{chars_of, has_prefix, push_all, push_str, starts_with, string_from_chars};

verus! {

/// The file-name prefix that marks a whiteout: `.wh.NAME` hides `NAME` of
/// the lower layers.
pub const WHITEOUT_PREFIX: &'static str = ".wh.";

/// What a simulation changed, relative to the layers beneath it.
#[derive(Debug, Clone, PartialEq, Eq)]
pub struct SimulationDiff {
    pub files_created: Vec<String>,
    pub files_modified: Vec<String>,
    pub directories_created: Vec<String>,
    pub files_deleted: Vec<String>,
    pub directories_deleted: Vec<String>,
    pub bytes_deleted: u64,
    pub bytes_affected: u64,
    /// Path and SHA-256 (lower-case hex) of each created or modified file.
    /// A later pair for the same path overrides an earlier one.
    pub content_hashes: Vec<(String, String)>,
}

/// The views of a list of strings.
pub open spec fn string_views(v: Seq<String>) -> Seq<Seq<char>> {
    v.map_values(|s: String| s@)
}

/// The path-to-hash map that `pairs` records; later pairs win.
pub open spec fn hash_map_of(pairs: Seq<(String, String)>) -> Map<Seq<char>, Seq<char>>
    decreases pairs.len(),
{
    if pairs.len() == 0 {
        Map::empty()
    } else {
        hash_map_of(pairs.drop_last()).insert(pairs.last().0@, pairs.last().1@)
    }
}

impl Default for SimulationDiff {
    fn default() -> (d: Self)
        ensures
            d.files_created@.len() == 0,
            d.files_modified@.len() == 0,
            d.directories_created@.len() == 0,
            d.files_deleted@.len() == 0,
            d.directories_deleted@.len() == 0,
            d.bytes_deleted == 0,
            d.bytes_affected == 0,
            d.content_hashes@.len() == 0,
    {
        SimulationDiff {
            files_created: Vec::new(),
            files_modified: Vec::new(),
            directories_created: Vec::new(),
            files_deleted: Vec::new(),
            directories_deleted: Vec::new(),
            bytes_deleted: 0,
            bytes_affected: 0,
            content_hashes: Vec::new(),
        }
    }
}

impl SimulationDiff {
    /// How many files were created, modified or deleted.
    pub fn files_affected(&self) -> (n: u64)
        requires
            self.files_created@.len() + self.files_modified@.len() + self.files_deleted@.len()
                <= usize::MAX,
        ensures
            n == self.files_created@.len() + self.files_modified@.len()
                + self.files_deleted@.len(),
    {
        (self.files_created.len() + self.files_modified.len() + self.files_deleted.len()) as u64
    }
}

/// The lower-case hexadecimal digit for `n` (below 16).
pub open spec fn hex_digit(n: u8) -> char {
    if n < 10 {
        (48 + n) as char
    } else {
        (87 + n) as char
    }
}

/// `bytes` in lower-case hexadecimal, two digits per byte.
pub open spec fn hex_lower(bytes: Seq<u8>) -> Seq<char>
    decreases bytes.len(),
{
    if bytes.len() == 0 {
        Seq::empty()
    } else {
        hex_lower(bytes.drop_last()) + seq![
            hex_digit(bytes.last() / 16),
            hex_digit(bytes.last() % 16),
        ]
    }
}

fn hex_digit_char(n: u8) -> (c: char)
    requires
        n < 16,
    ensures
        c == hex_digit(n),
{
    if n < 10 {
        (48 + n) as char
    } else {
        (87 + n) as char
    }
}

/// Formats `bytes` as lower-case hexadecimal.
pub fn to_hex_lower(bytes: &[u8]) -> (s: String)
    ensures
        s@ == hex_lower(bytes@),
{
    let mut out: Vec<char> = Vec::new();
    let mut i: usize = 0;
    while i < bytes.len()
        invariant
            i <= bytes@.len(),
            out@ == hex_lower(bytes@.take(i as int)),
        decreases bytes.len() - i,
    {
        let b = bytes[i];
        out.push(hex_digit_char(b / 16));
        out.push(hex_digit_char(b % 16));
        i = i + 1;
        assert(bytes@.take(i as int).drop_last() =~= bytes@.take(i - 1));
        assert(out@ =~= hex_lower(bytes@.take(i as int)));
    }
    assert(bytes@.take(i as int) =~= bytes@);
    string_from_chars(out.as_slice())
}

/// The SHA-256 digest of `bytes`, as `sha2` computes it.
pub uninterp spec fn sha256_digest(bytes: Seq<u8>) -> Seq<u8>;

/// Calls `sha2::Sha256::digest`. The contract names the digest and adds
/// its documented size, 32 bytes.
#[verifier::external_body]
fn sha256(bytes: &[u8]) -> (d: Vec<u8>)
    ensures
        d@ == sha256_digest(bytes@),
        d@.len() == 32,
{
    sha2::Sha256::digest(bytes).to_vec()
}

/// The SHA-256 of `bytes` in lower-case hexadecimal.
pub fn hex_sha256(bytes: &[u8]) -> (s: String)
    ensures
        s@ == hex_lower(sha256_digest(bytes@)),
{
    let d = sha256(bytes);
    to_hex_lower(d.as_slice())
}

/// The position of the last `c` in `s`, if any.
pub open spec fn last_index_of(s: Seq<char>, c: char) -> Option<int>
    decreases s.len(),
{
    if s.len() == 0 {
        None
    } else if s.last() == c {
        Some(s.len() - 1)
    } else {
        last_index_of(s.drop_last(), c)
    }
}

/// The path a whiteout marker deletes: for a marker named `.wh.NAME` at
/// relative path `rel`, `NAME` in the directory of `rel`. `None` when `name`
/// is no whiteout marker.
pub open spec fn whiteout_target(rel: Seq<char>, name: Seq<char>) -> Option<Seq<char>> {
    if has_prefix(name, WHITEOUT_PREFIX@) {
        let hidden = name.skip(WHITEOUT_PREFIX@.len() as int);
        Some(
            match last_index_of(rel, '/') {
                Some(i) => rel.take(i) + "/"@ + hidden,
                None => hidden,
            },
        )
    } else {
        None
    }
}

fn last_slash(s: &[char]) -> (r: Option<usize>)
    ensures
        match r {
            Some(i) => last_index_of(s@, '/') == Some(i as int) && i < s@.len(),
            None => last_index_of(s@, '/') is None,
        },
{
    let mut end: usize = s.len();
    assert(s@.take(s@.len() as int) =~= s@);
    while end > 0
        invariant
            end <= s@.len(),
            last_index_of(s@, '/') == last_index_of(s@.take(end as int), '/'),
        decreases end,
    {
        assert(s@.take(end as int).drop_last() =~= s@.take(end - 1));
        if s[end - 1] == '/' {
            return Some(end - 1);
        }
        end = end - 1;
    }
    None
}

/// The relative path deleted by the entry named `file_name` at relative
/// path `rel_path`, or `None` when the entry is no whiteout marker.
pub fn whiteout_deleted_path(rel_path: &str, file_name: &str) -> (r: Option<String>)
    ensures
        match r {
            Some(p) => whiteout_target(rel_path@, file_name@) == Some(p@),
            None => whiteout_target(rel_path@, file_name@) is None,
        },
{
    let name = chars_of(file_name);
    let prefix = chars_of(WHITEOUT_PREFIX);
    if !starts_with(name.as_slice(), prefix.as_slice()) {
        return None;
    }
    let mut hidden: Vec<char> = Vec::new();
    let mut i: usize = prefix.len();
    while i < name.len()
        invariant
            prefix@.len() <= i <= name@.len(),
            hidden@ == name@.subrange(prefix@.len() as int, i as int),
        decreases name.len() - i,
    {
        hidden.push(name[i]);
        i = i + 1;
        assert(hidden@ =~= name@.subrange(prefix@.len() as int, i as int));
    }
    assert(hidden@ =~= name@.skip(prefix@.len() as int));
    let rel = chars_of(rel_path);
    match last_slash(rel.as_slice()) {
        Some(k) => {
            let mut out: Vec<char> = Vec::new();
            let mut j: usize = 0;
            while j < k
                invariant
                    j <= k < rel@.len(),
                    out@ == rel@.take(j as int),
                decreases k - j,
            {
                out.push(rel[j]);
                j = j + 1;
                assert(out@ =~= rel@.take(j as int));
            }
            push_str(&mut out, "/");
            push_all(&mut out, hidden.as_slice());
            Some(string_from_chars(out.as_slice()))
        },
        None => Some(string_from_chars(hidden.as_slice())),
    }
}

/// What the lower layers hold at a whiteout marker's target.
#[derive(Debug, Clone, Copy, PartialEq, Eq, Structural)]
pub struct LowerEntry {
    pub is_directory: bool,
    pub len: u64,
}

/// What recording a whiteout of `deleted` does to a diff, by what the lower
/// layers hold there: a deleted directory, a deleted file whose size counts
/// as deleted bytes, or nothing.
pub open spec fn whiteout_effect(
    before: SimulationDiff,
    after: SimulationDiff,
    deleted: Seq<char>,
    lower: Option<LowerEntry>,
) -> bool {
    &&& after.files_created == before.files_created
    &&& after.files_modified == before.files_modified
    &&& after.directories_created == before.directories_created
    &&& after.bytes_affected == before.bytes_affected
    &&& after.content_hashes == before.content_hashes
    &&& match lower {
        None => {
            &&& after.files_deleted == before.files_deleted
            &&& after.directories_deleted == before.directories_deleted
            &&& after.bytes_deleted == before.bytes_deleted
        },
        Some(e) => if e.is_directory {
            &&& string_views(after.directories_deleted@) == string_views(
                before.directories_deleted@,
            ).push(deleted)
            &&& after.files_deleted == before.files_deleted
            &&& after.bytes_deleted == before.bytes_deleted
        } else {
            &&& string_views(after.files_deleted@) == string_views(before.files_deleted@).push(
                deleted,
            )
            &&& after.directories_deleted == before.directories_deleted
            &&& after.bytes_deleted == before.bytes_deleted + e.len
        },
    }
}

/// What recording a directory of the transient layer does to a diff: it is
/// created unless the lower layers already had it.
pub open spec fn directory_effect(
    before: SimulationDiff,
    after: SimulationDiff,
    path: Seq<char>,
    existed_before: bool,
) -> bool {
    &&& after.files_created == before.files_created
    &&& after.files_modified == before.files_modified
    &&& after.files_deleted == before.files_deleted
    &&& after.directories_deleted == before.directories_deleted
    &&& after.bytes_deleted == before.bytes_deleted
    &&& after.bytes_affected == before.bytes_affected
    &&& after.content_hashes == before.content_hashes
    &&& existed_before ==> after.directories_created == before.directories_created
    &&& !existed_before ==> string_views(after.directories_created@) == string_views(
        before.directories_created@,
    ).push(path)
}

/// What recording a file of the transient layer holding `contents` does to
/// a diff, where the lower layers held `previous`: its size counts as
/// affected bytes; a byte-equal copy is no change; otherwise it is created
/// (nothing below) or modified, and its path maps to the lower-case hex
/// SHA-256 of `contents`.
pub open spec fn file_effect(
    before: SimulationDiff,
    after: SimulationDiff,
    path: Seq<char>,
    contents: Seq<u8>,
    previous: Option<Seq<u8>>,
) -> bool {
    &&& after.directories_created == before.directories_created
    &&& after.files_deleted == before.files_deleted
    &&& after.directories_deleted == before.directories_deleted
    &&& after.bytes_deleted == before.bytes_deleted
    &&& after.bytes_affected == before.bytes_affected + contents.len()
    &&& match previous {
        Some(p) => if p == contents {
            &&& after.files_created == before.files_created
            &&& after.files_modified == before.files_modified
            &&& after.content_hashes == before.content_hashes
        } else {
            &&& after.files_created == before.files_created
            &&& string_views(after.files_modified@) == string_views(before.files_modified@).push(
                path,
            )
            &&& hash_map_of(after.content_hashes@) == hash_map_of(before.content_hashes@).insert(
                path,
                hex_lower(sha256_digest(contents)),
            )
        },
        None => {
            &&& after.files_modified == before.files_modified
            &&& string_views(after.files_created@) == string_views(before.files_created@).push(
                path,
            )
            &&& hash_map_of(after.content_hashes@) == hash_map_of(before.content_hashes@).insert(
                path,
                hex_lower(sha256_digest(contents)),
            )
        },
    }
}

impl SimulationDiff {
    /// Records a whiteout of `deleted_rel`: a deleted directory or a deleted
    /// file (whose size counts as deleted bytes) by what the lower layers
    /// hold there, and nothing when they hold nothing.
    pub fn record_whiteout(&mut self, deleted_rel: String, lower: Option<LowerEntry>)
        requires
            lower is Some && !lower.unwrap().is_directory ==> old(self).bytes_deleted + lower.unwrap().len
                <= u64::MAX,
        ensures
            whiteout_effect(*old(self), *final(self), deleted_rel@, lower),
    {
        match lower {
            Some(e) => {
                if e.is_directory {
                    let ghost before = string_views(self.directories_deleted@);
                    self.directories_deleted.push(deleted_rel);
                    assert(string_views(self.directories_deleted@) =~= before.push(deleted_rel@));
                } else {
                    let ghost before = string_views(self.files_deleted@);
                    self.bytes_deleted = self.bytes_deleted + e.len;
                    self.files_deleted.push(deleted_rel);
                    assert(string_views(self.files_deleted@) =~= before.push(deleted_rel@));
                }
            },
            None => {},
        }
    }

    /// Records a directory met in the transient layer: created unless the
    /// lower layers already had it.
    pub fn record_directory(&mut self, rel_path: String, existed_before: bool)
        ensures
            directory_effect(*old(self), *final(self), rel_path@, existed_before),
    {
        if !existed_before {
            let ghost before = string_views(self.directories_created@);
            self.directories_created.push(rel_path);
            assert(string_views(self.directories_created@) =~= before.push(rel_path@));
        }
    }

    /// Records a file met in the transient layer holding `contents`, where
    /// the lower layers held `previous` (if anything). Its size counts as
    /// affected bytes; it is created when new, modified when its contents
    /// changed, and in both cases its hash is recorded; an unchanged copy is
    /// no change.
    pub fn record_file(&mut self, rel_path: String, contents: &[u8], previous: Option<&[u8]>)
        requires
            old(self).bytes_affected + contents@.len() <= u64::MAX,
        ensures
            file_effect(
                *old(self),
                *final(self),
                rel_path@,
                contents@,
                match previous {
                    Some(p) => Some(p@),
                    None => None,
                },
            ),
    {
        self.bytes_affected = self.bytes_affected + contents.len() as u64;
        let unchanged = match previous {
            Some(p) => bytes_eq(p, contents),
            None => false,
        };
        if unchanged {
            return;
        }
        let hash = hex_sha256(contents);
        let key = rel_path.clone();
        let ghost hashes_before = self.content_hashes@;
        self.content_hashes.push((key, hash));
        assert(self.content_hashes@.drop_last() =~= hashes_before);
        match previous {
            Some(_) => {
                let ghost before = string_views(self.files_modified@);
                self.files_modified.push(rel_path);
                assert(string_views(self.files_modified@) =~= before.push(rel_path@));
            },
            None => {
                let ghost before = string_views(self.files_created@);
                self.files_created.push(rel_path);
                assert(string_views(self.files_created@) =~= before.push(rel_path@));
            },
        }
    }
}

/// Whether two byte slices are equal.
pub fn bytes_eq(a: &[u8], b: &[u8]) -> (r: bool)
    ensures
        r == (a@ == b@),
{
    if a.len() != b.len() {
        return false;
    }
    let mut i: usize = 0;
    while i < a.len()
        invariant
            a@.len() == b@.len(),
            i <= a@.len(),
            forall|k: int| 0 <= k < i ==> a@[k] == b@[k],
        decreases a.len() - i,
    {
        if a[i] != b[i] {
            return false;
        }
        i = i + 1;
    }
    assert(a@ =~= b@);
    true
}


/// Whether a diff hashes exactly the files it created or modified.
pub open spec fn hashes_cover(d: SimulationDiff) -> bool {
    forall|p: Seq<char>|
        #![trigger hash_map_of(d.content_hashes@).dom().contains(p)]
        hash_map_of(d.content_hashes@).dom().contains(p) <==> (string_views(d.files_created@).contains(p)
            || string_views(d.files_modified@).contains(p))
}

/// An entry of the transient layer, by what a walk does with it.
pub enum EntryKind {
    /// A whiteout marker, with the relative path it deletes.
    Whiteout(String),
    /// A directory, which the walk also descends into.
    Directory,
    /// Anything else, read as a file.
    File,
}

/// What the entry named `name` at relative path `rel_path` is to a walk: a
/// whiteout marker whatever its own kind, else a directory or a file.
pub fn entry_kind(rel_path: &str, name: &str, is_directory: bool) -> (k: EntryKind)
    ensures
        match whiteout_target(rel_path@, name@) {
            Some(t) => k matches EntryKind::Whiteout(p) && p@ == t,
            None => if is_directory {
                k is Directory
            } else {
                k is File
            },
        },
{
    match whiteout_deleted_path(rel_path, name) {
        Some(p) => EntryKind::Whiteout(p),
        None => if is_directory {
            EntryKind::Directory
        } else {
            EntryKind::File
        },
    }
}

/// What a walk learned from the layers of one entry of the transient layer.
pub enum EntryFacts {
    /// A whiteout marker of `deleted_rel`, and what the lower layers hold
    /// there.
    Whiteout { deleted_rel: String, lower: Option<LowerEntry> },
    /// A directory, and whether the lower layers already had it.
    Directory { existed_before: bool },
    /// A file's contents, and what the lower layers held at its path.
    File { contents: Vec<u8>, previous: Option<Vec<u8>> },
}

/// The bytes held, if any.
pub open spec fn bytes_view(b: Option<Vec<u8>>) -> Option<Seq<u8>> {
    match b {
        Some(v) => Some(v@),
        None => None,
    }
}

/// Whether recording `facts` would take a byte total of `d` past `u64::MAX`.
pub open spec fn entry_overflows(d: SimulationDiff, facts: EntryFacts) -> bool {
    match facts {
        EntryFacts::Whiteout { lower, .. } => lower matches Some(e) && !e.is_directory
            && d.bytes_deleted + e.len > u64::MAX,
        EntryFacts::Directory { .. } => false,
        EntryFacts::File { contents, .. } => d.bytes_affected + contents@.len() > u64::MAX,
    }
}

/// What recording the entry at `path` with `facts` does to a diff.
pub open spec fn entry_effect(
    before: SimulationDiff,
    after: SimulationDiff,
    path: Seq<char>,
    facts: EntryFacts,
) -> bool {
    match facts {
        EntryFacts::Whiteout { deleted_rel, lower } => whiteout_effect(before, after, deleted_rel@, lower),
        EntryFacts::Directory { existed_before } => directory_effect(before, after, path, existed_before),
        EntryFacts::File { contents, previous } => file_effect(
            before,
            after,
            path,
            contents@,
            bytes_view(previous),
        ),
    }
}

/// The message of the error that refuses an overflowing byte total.
pub open spec fn overflow_message(facts: EntryFacts) -> Seq<char> {
    if facts is File {
        "affected byte total overflows"@
    } else {
        "deleted byte total overflows"@
    }
}

/// Pushing `x` onto a list adds exactly `x` to what it contains.
proof fn lemma_push_contains(s: Seq<Seq<char>>, x: Seq<char>, q: Seq<char>)
    ensures
        s.push(x).contains(q) <==> (s.contains(q) || q == x),
{
    if s.push(x).contains(q) && q != x {
        let k = choose|k: int| 0 <= k < s.push(x).len() && s.push(x)[k] == q;
        assert(s[k] == q);
    }
    if q == x {
        assert(s.push(x)[s.len() as int] == q);
    }
    if s.contains(q) {
        let k = choose|k: int| 0 <= k < s.len() && s[k] == q;
        assert(s.push(x)[k] == q);
    }
}

/// Recording a file keeps the hashed paths equal to the created and
/// modified ones.
proof fn lemma_file_keeps_hashes_cover(
    before: SimulationDiff,
    after: SimulationDiff,
    path: Seq<char>,
    contents: Seq<u8>,
    previous: Option<Seq<u8>>,
)
    requires
        hashes_cover(before),
        file_effect(before, after, path, contents, previous),
    ensures
        hashes_cover(after),
{
    assert forall|q: Seq<char>|
        #![trigger hash_map_of(after.content_hashes@).dom().contains(q)]
        hash_map_of(after.content_hashes@).dom().contains(q) <==> (string_views(after.files_created@).contains(q)
            || string_views(after.files_modified@).contains(q)) by {
        assert(hash_map_of(before.content_hashes@).dom().contains(q) <==> (string_views(
            before.files_created@,
        ).contains(q) || string_views(before.files_modified@).contains(q)));
        lemma_push_contains(string_views(before.files_created@), path, q);
        lemma_push_contains(string_views(before.files_modified@), path, q);
    }
}

/// Whether every hash a diff records is the lower-case hex SHA-256 of
/// some contents.
pub open spec fn hashes_are_digests(d: SimulationDiff) -> bool {
    forall|p: Seq<char>|
        #![trigger hash_map_of(d.content_hashes@).dom().contains(p)]
        hash_map_of(d.content_hashes@).dom().contains(p) ==> exists|b: Seq<u8>|
            hash_map_of(d.content_hashes@)[p] == #[trigger] hex_lower(sha256_digest(b))
}

/// Recording a file keeps every recorded hash a digest of some contents.
proof fn lemma_file_keeps_digests(
    before: SimulationDiff,
    after: SimulationDiff,
    path: Seq<char>,
    contents: Seq<u8>,
    previous: Option<Seq<u8>>,
)
    requires
        hashes_are_digests(before),
        file_effect(before, after, path, contents, previous),
    ensures
        hashes_are_digests(after),
{
    if hash_map_of(after.content_hashes@) != hash_map_of(before.content_hashes@) {
        let m = hash_map_of(after.content_hashes@);
        assert(m == hash_map_of(before.content_hashes@).insert(path, hex_lower(sha256_digest(contents))));
        assert forall|q: Seq<char>|
            #![trigger hash_map_of(after.content_hashes@).dom().contains(q)]
            hash_map_of(after.content_hashes@).dom().contains(q) implies exists|b: Seq<u8>|
                hash_map_of(after.content_hashes@)[q] == #[trigger] hex_lower(sha256_digest(b)) by {
            if q == path {
                assert(m[q] == hex_lower(sha256_digest(contents)));
            } else {
                assert(hash_map_of(before.content_hashes@).dom().contains(q));
                let b = choose|b: Seq<u8>| hash_map_of(before.content_hashes@)[q] == #[trigger] hex_lower(sha256_digest(b));
                assert(m[q] == hex_lower(sha256_digest(b)));
            }
        }
    }
}

impl SimulationDiff {
    /// Records the entry at `rel_path` of the transient layer from what the
    /// walk learned of it, by its kind: a whiteout, a directory or a file.
    /// A byte total that would pass `u64::MAX` is refused and nothing is
    /// recorded.
    pub fn record_entry(&mut self, rel_path: String, facts: EntryFacts) -> (r: Result<(), FsError>)
        ensures
            entry_overflows(*old(self), facts) ==> (r matches Err(e) && !e.not_found && e.message@
                == overflow_message(facts) && *final(self) == *old(self)),
            !entry_overflows(*old(self), facts) ==> (r is Ok && entry_effect(
                *old(self),
                *final(self),
                rel_path@,
                facts,
            )),
            hashes_cover(*old(self)) ==> hashes_cover(*final(self)),
            hashes_are_digests(*old(self)) ==> hashes_are_digests(*final(self)),
    {
        let ghost before = *self;
        match facts {
            EntryFacts::Whiteout { deleted_rel, lower } => {
                if let Some(e) = lower {
                    if !e.is_directory && e.len > u64::MAX - self.bytes_deleted {
                        return Err(FsError::invalid("deleted byte total overflows"));
                    }
                }
                self.record_whiteout(deleted_rel, lower);
            },
            EntryFacts::Directory { existed_before } => {
                self.record_directory(rel_path, existed_before);
            },
            EntryFacts::File { contents, previous } => {
                if contents.len() as u64 > u64::MAX - self.bytes_affected {
                    return Err(FsError::invalid("affected byte total overflows"));
                }
                let ghost path = rel_path@;
                let ghost below = bytes_view(previous);
                match &previous {
                    Some(p) => self.record_file(rel_path, contents.as_slice(), Some(p.as_slice())),
                    None => self.record_file(rel_path, contents.as_slice(), None),
                }
                proof {
                    if hashes_cover(before) {
                        lemma_file_keeps_hashes_cover(before, *self, path, contents@, below);
                    }
                    if hashes_are_digests(before) {
                        lemma_file_keeps_digests(before, *self, path, contents@, below);
                    }
                }
            },
        }
        Ok(())
    }
}

/// Walks the transient layer below `current`, recording every entry.
fn walk<L: LayerOps>(
    transient: &L,
    current: &str,
    lower: &Option<LayeredResolver<L>>,
    diff: &mut SimulationDiff,
    depth: usize,
) -> (r: Result<(), FsError>)
    requires
        hashes_cover(*old(diff)),
        hashes_are_digests(*old(diff)),
    ensures
        hashes_cover(*final(diff)),
        hashes_are_digests(*final(diff)),
        depth == 0 ==> (r matches Err(e) && !e.not_found && e.message@ == "directory tree nested too deeply"@
            && *final(diff) == *old(diff)),
    decreases depth,
{
    if depth == 0 {
        return Err(FsError::invalid("directory tree nested too deeply"));
    }
    let names = transient.read_dir(current)?;
    let mut i: usize = 0;
    while i < names.len()
        invariant
            i <= names@.len(),
            depth > 0,
            hashes_cover(*diff),
            hashes_are_digests(*diff),
        decreases names.len() - i,
    {
        let name = names[i].as_str();
        let rel_path = child_path(current, name);
        let info = transient.stat(rel_path.as_str())?;
        let kind = entry_kind(rel_path.as_str(), name, info.kind == FileKind::Directory);
        let descend = match kind {
            EntryKind::Directory => true,
            _ => false,
        };
        let facts = match kind {
            EntryKind::Whiteout(deleted_rel) => {
                let below = match lower {
                    Some(l) => match l.stat(deleted_rel.as_str()) {
                        Ok(found) => Some(
                            LowerEntry { is_directory: found.kind == FileKind::Directory, len: found.len },
                        ),
                        Err(_) => None,
                    },
                    None => None,
                };
                EntryFacts::Whiteout { deleted_rel, lower: below }
            },
            EntryKind::Directory => {
                let existed_before = match lower {
                    Some(l) => l.stat(rel_path.as_str()).is_ok(),
                    None => false,
                };
                EntryFacts::Directory { existed_before }
            },
            EntryKind::File => {
                let contents = transient.read_file(rel_path.as_str())?;
                let previous = match lower {
                    Some(l) => match l.read_file(rel_path.as_str()) {
                        Ok(p) => Some(p),
                        Err(_) => None,
                    },
                    None => None,
                };
                EntryFacts::File { contents, previous }
            },
        };
        diff.record_entry(rel_path.clone(), facts)?;
        if descend {
            walk(transient, rel_path.as_str(), lower, diff, depth - 1)?;
        }
        i = i + 1;
    }
    Ok(())
}

/// What the transient layer changed relative to the layers beneath it
/// (`None` when there are none): created, modified and deleted files and
/// directories, the bytes involved, and the hashes of new content.
pub fn compute<L: LayerOps>(transient: &L, lower: &Option<LayeredResolver<L>>) -> (r: Result<SimulationDiff, FsError>)
    ensures
        r matches Ok(d) ==> hashes_cover(d) && hashes_are_digests(d),
{
    let mut diff = SimulationDiff::default();
    assert(hash_map_of(diff.content_hashes@) =~= Map::<Seq<char>, Seq<char>>::empty());
    walk(transient, "", lower, &mut diff, MAX_WALK_DEPTH)?;
    Ok(diff)
}

/// What one simulation pass produced: the command's result and the diff
/// of its transient layer.
pub struct SimulationOutcome {
    pub command_result: CommandResult,
    pub diff: SimulationDiff,
}

/// Runs `parsed` over the stack of a fresh transient layer on top of the
/// session's `lower` layers (the same handlers as a real run, writing to
/// the transient layer only), then computes what the transient layer
/// changed.
pub fn simulate<L: LayerOps, H: ShellHost>(
    transient: L,
    lower: Vec<L>,
    session: &mut TerminalSession,
    parsed: &ParsedCommand,
    host: &H,
) -> (r: Result<SimulationOutcome, FsError>)
    ensures
        handler_of(parsed.name@) != Some(Handler::Cd) && handler_of(parsed.name@) != Some(Handler::SafeshellPkg)
            ==> session_kept(*final(session), *old(session)),
        r matches Ok(o) ==> hashes_cover(o.diff) && hashes_are_digests(o.diff),
        r matches Ok(o) ==> (handler_of(parsed.name@) is None && parsed.redirections@.len() == 0
            ==> o.command_result.exit_code == 127),
{
    let mut layers: Vec<L> = Vec::new();
    layers.push(transient);
    let mut rest = lower;
    layers.append(&mut rest);
    let resolver = LayeredResolver::from_layers(layers)?;
    let command_result = dispatch(
        parsed.name.as_str(),
        parsed.args.as_slice(),
        parsed.redirections.as_slice(),
        session,
        &resolver,
        host,
    );
    let mut layers = resolver.into_layers();
    let top = layers.remove(0);
    let beneath = if layers.len() == 0 {
        None
    } else {
        Some(LayeredResolver::from_layers(layers)?)
    };
    let diff = compute(&top, &beneath)?;
    Ok(SimulationOutcome { command_result, diff })
}

} // verus!
