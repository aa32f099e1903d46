//! The sandbox worker's request protocol, and the path helpers of its
//! contained resolver: joining a relative parent with a child name, and
//! deciding what counts as one safe path component.

use vstd::prelude::*;
use crate::simulation::resolver::LayerOps;
use crate::text::{chars_of, contains_char, push_str, str_eq, string_from_chars};

verus! {

/// What kind of file a path names.
#[derive(Debug, Clone, Copy, PartialEq, Eq, Structural)]
pub enum FileKind {
    Regular,
    Directory,
    Symlink,
    Other,
}

/// What a stat reports: the kind and the length in bytes.
#[derive(Debug, Clone, Copy, PartialEq, Eq, Structural)]
pub struct StatInfo {
    pub kind: FileKind,
    pub len: u64,
}

/// One operation the host asks of the sandbox worker; paths are relative
/// to the worker's root and are checked again on the worker's side.
#[derive(Debug, Clone, PartialEq, Eq)]
pub enum WorkerRequest {
    Mkdir { parent_rel: String, name: String },
    Touch { rel_path: String },
    ReadDir { rel_path: String },
    ReadFile { rel_path: String },
    Stat { rel_path: String },
}

/// The worker's answer to one request.
#[derive(Debug, Clone, PartialEq, Eq)]
pub enum WorkerResponse {
    Done,
    DirEntries(Vec<String>),
    FileContents(Vec<u8>),
    Stat(StatInfo),
    Error { message: String },
}

/// The relative path of `name` inside `parent_rel` (the root when empty).
pub open spec fn child_path_of(parent_rel: Seq<char>, name: Seq<char>) -> Seq<char> {
    if parent_rel.len() == 0 {
        name
    } else {
        parent_rel + "/"@ + name
    }
}

/// Joins a relative parent path and a child name.
pub fn child_path(parent_rel: &str, name: &str) -> (r: String)
    ensures
        r@ == child_path_of(parent_rel@, name@),
{
    if parent_rel.unicode_len() == 0 {
        return name.to_string();
    }
    let mut out = chars_of(parent_rel);
    push_str(&mut out, "/");
    push_str(&mut out, name);
    string_from_chars(out.as_slice())
}

/// Whether `name` is exactly one ordinary path component: not empty, no
/// `/`, no NUL, and not `.` or `..`.
pub open spec fn safe_component(name: Seq<char>) -> bool {
    &&& name.len() > 0
    &&& !name.contains('/')
    &&& !name.contains('\0')
    &&& name != "."@
    &&& name != ".."@
}

/// Whether `name` is exactly one ordinary path component.
pub fn is_single_safe_component(name: &str) -> (b: bool)
    ensures
        b == safe_component(name@),
{
    let cs = chars_of(name);
    cs.len() > 0 && !contains_char(cs.as_slice(), '/') && !contains_char(cs.as_slice(), '\0')
        && !str_eq(name, ".") && !str_eq(name, "..")
}

/// The message of a lookup that no layer could satisfy.
pub fn not_found_message(rel_path: &str) -> (s: String)
    ensures
        s@ == rel_path@ + ": not found in any layer"@,
{
    let mut out = chars_of(rel_path);
    push_str(&mut out, ": not found in any layer");
    string_from_chars(out.as_slice())
}


/// Answers one request with the layer's operation of the same name: its
/// result, or its error as an error response.
pub fn dispatch<L: LayerOps>(resolver: &L, request: WorkerRequest) -> (r: WorkerResponse)
    ensures
        (request is Mkdir || request is Touch) ==> (r is Done || r is Error),
        request is ReadDir ==> (r is DirEntries || r is Error),
        request is ReadFile ==> (r is FileContents || r is Error),
        request is Stat ==> (r is Stat || r is Error),
{
    let result = match request {
        WorkerRequest::Mkdir { parent_rel, name } => match resolver.mkdir(parent_rel.as_str(), name.as_str()) {
            Ok(()) => Ok(WorkerResponse::Done),
            Err(e) => Err(e),
        },
        WorkerRequest::Touch { rel_path } => match resolver.touch(rel_path.as_str()) {
            Ok(()) => Ok(WorkerResponse::Done),
            Err(e) => Err(e),
        },
        WorkerRequest::ReadDir { rel_path } => match resolver.read_dir(rel_path.as_str()) {
            Ok(names) => Ok(WorkerResponse::DirEntries(names)),
            Err(e) => Err(e),
        },
        WorkerRequest::ReadFile { rel_path } => match resolver.read_file(rel_path.as_str()) {
            Ok(bytes) => Ok(WorkerResponse::FileContents(bytes)),
            Err(e) => Err(e),
        },
        WorkerRequest::Stat { rel_path } => match resolver.stat(rel_path.as_str()) {
            Ok(info) => Ok(WorkerResponse::Stat(info)),
            Err(e) => Err(e),
        },
    };
    match result {
        Ok(response) => response,
        Err(e) => WorkerResponse::Error { message: e.message },
    }
}

} // verus!
