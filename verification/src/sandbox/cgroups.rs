//! Per-session cgroups: the limit files a session's cgroup is written with,
//! where the search for a writable delegated subtree looks, and what the
//! preflight concludes from what the host found there.

use vstd::prelude::*;
use crate::fs_abstraction::{dot, join_path, named_parts, split_chars, split_on};
use crate::handlers::text_filters::{lines_from, next_line};
use crate::sandbox::backend::PrimitiveStatus;
use crate::sandbox::probes::unavailable_with;
use crate::text::{chars_eq, chars_of, decimal, decimal_u64, has_prefix, push_all, push_str, starts_with, string_from_chars};

verus! {

/// The resource limits of one session's cgroup.
#[derive(Debug, Clone, Copy)]
pub struct CgroupLimits {
    pub pids_max: u64,
    pub memory_max_bytes: u64,
    pub cpu_quota_period: (u64, u64),
}

/// The `cpu.max` line: the quota and the period.
pub open spec fn cpu_max_text(quota: u64, period: u64) -> Seq<char> {
    decimal(quota as nat) + " "@ + decimal(period as nat)
}

/// The files a session cgroup is written with, in order, with their text.
pub open spec fn limit_files(l: CgroupLimits) -> Seq<(Seq<char>, Seq<char>)> {
    seq![
        ("pids.max"@, decimal(l.pids_max as nat)),
        ("memory.max"@, decimal(l.memory_max_bytes as nat)),
        ("cpu.max"@, cpu_max_text(l.cpu_quota_period.0, l.cpu_quota_period.1)),
    ]
}

/// The controller files a delegated subtree must let a session write.
pub open spec fn required_controllers() -> Seq<Seq<char>> {
    seq!["pids.max"@, "memory.max"@, "cpu.max"@]
}

impl CgroupLimits {
    /// Each limit file's name and the text written to it.
    pub fn control_files(&self) -> (v: Vec<(String, String)>)
        ensures
            v@.len() == 3,
            forall|i: int| 0 <= i < 3 ==> (#[trigger] v@[i]).0@ == limit_files(*self)[i].0
                && v@[i].1@ == limit_files(*self)[i].1,
    {
        let pids = decimal_u64(self.pids_max);
        let memory = decimal_u64(self.memory_max_bytes);
        let (quota, period) = self.cpu_quota_period;
        let mut cpu = decimal_u64(quota);
        push_str(&mut cpu, " ");
        let p = decimal_u64(period);
        push_all(&mut cpu, p.as_slice());
        let mut v: Vec<(String, String)> = Vec::new();
        v.push(("pids.max".to_string(), string_from_chars(pids.as_slice())));
        v.push(("memory.max".to_string(), string_from_chars(memory.as_slice())));
        v.push(("cpu.max".to_string(), string_from_chars(cpu.as_slice())));
        proof {
            reveal_strlit(" ");
        }
        v
    }
}

/// The controller files to probe for write access, in order.
pub fn required_controller_files() -> (v: Vec<String>)
    ensures
        v@.map_values(|s: String| s@) == required_controllers(),
{
    let mut v: Vec<String> = Vec::new();
    v.push("pids.max".to_string());
    v.push("memory.max".to_string());
    v.push("cpu.max".to_string());
    assert(v@.map_values(|s: String| s@) =~= required_controllers());
    v
}

/// Whether a candidate subtree is usable: every required controller file
/// in it could be opened for writing.
pub fn controllers_usable(writable: &[bool]) -> (b: bool)
    ensures
        b == (forall|i: int| 0 <= i < writable@.len() ==> writable@[i]),
{
    let mut i: usize = 0;
    while i < writable.len()
        invariant
            i <= writable@.len(),
            forall|k: int| 0 <= k < i ==> writable@[k],
        decreases writable.len() - i,
    {
        if !writable[i] {
            return false;
        }
        i = i + 1;
    }
    true
}

/// The name of a session's cgroup directory.
pub fn session_cgroup_name(session_id: &str) -> (s: String)
    ensures
        s@ == "safeshell-"@ + session_id@,
{
    let mut out = chars_of("safeshell-");
    push_str(&mut out, session_id);
    string_from_chars(out.as_slice())
}

/// The cgroup v2 path of the first `0::` line among `lines`.
pub open spec fn first_v2_entry(lines: Seq<Seq<char>>) -> Option<Seq<char>>
    decreases lines.len(),
{
    if lines.len() == 0 {
        None
    } else if has_prefix(lines[0], "0::"@) {
        Some(lines[0].skip(3))
    } else {
        first_v2_entry(lines.skip(1))
    }
}

/// The message when `/proc/self/cgroup` names no cgroup v2 path.
pub open spec fn no_v2_line() -> Seq<char> {
    "no cgroup v2 (0::) line in /proc/self/cgroup"@
}

/// The process's own cgroup v2 path, from the text of `/proc/self/cgroup`
/// (or why that could not be read): what follows `0::` on the first line
/// that starts with it.
pub fn own_cgroup_path(contents: Result<String, String>) -> (r: Result<String, String>)
    ensures
        match contents {
            Err(e) => r matches Err(m) && m@ == e@,
            Ok(text) => match first_v2_entry(lines_from(text@, 0)) {
                Some(p) => r matches Ok(q) && q@ == p,
                None => r matches Err(m) && m@ == no_v2_line(),
            },
        },
{
    let text = match contents {
        Err(e) => return Err(e),
        Ok(t) => t,
    };
    let s = chars_of(text.as_str());
    let prefix = chars_of("0::");
    proof {
        reveal_strlit("0::");
    }
    let mut start: usize = 0;
    while start < s.len()
        invariant
            s@ == text@,
            contents == Ok::<String, String>(text),
            prefix@ == "0::"@,
            prefix@.len() == 3,
            start <= s@.len(),
            first_v2_entry(lines_from(s@, 0)) == first_v2_entry(lines_from(s@, start as int)),
        decreases s.len() - start,
    {
        let (line, next) = next_line(&s, start);
        let ghost rest = lines_from(s@, next as int);
        assert((seq![line@] + rest)[0] == line@);
        assert((seq![line@] + rest).skip(1) =~= rest);
        if starts_with(line.as_slice(), prefix.as_slice()) {
            assert(prefix@.len() == 3);
            let mut path: Vec<char> = Vec::new();
            let mut k: usize = 3;
            while k < line.len()
                invariant
                    3 <= k <= line@.len(),
                    path@ == line@.subrange(3, k as int),
                decreases line.len() - k,
            {
                path.push(line[k]);
                k = k + 1;
                assert(path@ =~= line@.subrange(3, k as int));
            }
            assert(path@ =~= line@.skip(3));
            return Ok(string_from_chars(path.as_slice()));
        }
        start = next;
    }
    assert(lines_from(s@, start as int) =~= Seq::<Seq<char>>::empty());
    Err("no cgroup v2 (0::) line in /proc/self/cgroup".to_string())
}

/// The cgroup v2 mount every search starts beneath.
pub open spec fn cgroup_root() -> Seq<char> {
    "/sys/fs/cgroup"@
}

/// The named components of a cgroup path (empty and `.` ones dropped).
pub open spec fn cgroup_segments(own: Seq<char>) -> Seq<Seq<char>> {
    named_parts(split_on(own, '/'))
}

/// The directory `k` components below the root along `segs`.
pub open spec fn candidate_at(segs: Seq<Seq<char>>, k: int) -> Seq<char> {
    if k <= 0 {
        cgroup_root()
    } else {
        cgroup_root() + "/"@ + join_path(segs.take(k))
    }
}

/// Where the search for a delegated subtree looks, in order: the
/// process's own cgroup, then each of its ancestors up to the root.
pub open spec fn search_candidates(own: Seq<char>) -> Seq<Seq<char>> {
    let segs = cgroup_segments(own);
    Seq::new((segs.len() + 1) as nat, |i: int| candidate_at(segs, segs.len() - i))
}

/// The directories to probe for a delegated subtree, deepest first.
pub fn cgroup_search_candidates(own: &str) -> (r: Vec<String>)
    ensures
        r@.map_values(|s: String| s@) == search_candidates(own@),
{
    let chars = chars_of(own);
    let parts = split_chars(chars.as_slice(), '/');
    let ghost pv = parts@.map_values(|p: Vec<char>| p@);
    let d = ['.'];
    let mut kept: Vec<Vec<char>> = Vec::new();
    let mut i: usize = 0;
    assert(kept@.map_values(|p: Vec<char>| p@) =~= named_parts(pv.take(0)));
    while i < parts.len()
        invariant
            pv == parts@.map_values(|p: Vec<char>| p@),
            d@ == dot(),
            i <= parts@.len(),
            kept@.map_values(|p: Vec<char>| p@) == named_parts(pv.take(i as int)),
        decreases parts.len() - i,
    {
        let part = &parts[i];
        assert(pv.take(i + 1).drop_last() =~= pv.take(i as int));
        assert(pv.take(i + 1).last() == part@);
        if part.len() == 0 || chars_eq(part.as_slice(), d.as_slice()) {
        } else {
            let ghost before = kept@.map_values(|p: Vec<char>| p@);
            kept.push(part.clone());
            assert(kept@.map_values(|p: Vec<char>| p@) =~= before.push(part@));
        }
        i = i + 1;
    }
    assert(pv.take(parts@.len() as int) =~= pv);
    let ghost segs = kept@.map_values(|p: Vec<char>| p@);
    assert(segs == cgroup_segments(own@));
    // The candidates from the root downwards: `prefixes[k]` is `k` below it.
    let mut cur = chars_of("/sys/fs/cgroup");
    let mut prefixes: Vec<Vec<char>> = Vec::new();
    prefixes.push(cur.clone());
    proof {
        reveal_strlit("/sys/fs/cgroup");
        reveal_strlit("/");
    }
    let mut k: usize = 0;
    while k < kept.len()
        invariant
            segs == kept@.map_values(|p: Vec<char>| p@),
            k <= kept@.len(),
            prefixes@.len() == k + 1,
            cur@ == candidate_at(segs, k as int),
            forall|j: int| 0 <= j <= k ==> (#[trigger] prefixes@[j])@ == candidate_at(segs, j),
        decreases kept.len() - k,
    {
        push_str(&mut cur, "/");
        push_all(&mut cur, kept[k].as_slice());
        proof {
            let t = segs.take(k + 1);
            assert(t.drop_last() =~= segs.take(k as int));
            assert(t.last() == segs[k as int]);
            reveal_strlit("/");
            assert("/"@ =~= seq!['/']);
            if k == 0 {
                assert(t.len() == 1);
                assert(join_path(t) == t[0]);
            } else {
                assert(join_path(t) == join_path(segs.take(k as int)) + seq!['/'] + segs[k as int]);
            }
        }
        assert(cur@ =~= candidate_at(segs, k + 1));
        prefixes.push(cur.clone());
        k = k + 1;
    }
    let total = prefixes.len();
    let mut out: Vec<String> = Vec::new();
    let mut j: usize = 0;
    while j < total
        invariant
            total == segs.len() + 1,
            prefixes@.len() == total,
            forall|m: int| 0 <= m < total ==> (#[trigger] prefixes@[m])@ == candidate_at(segs, m),
            j <= total,
            out@.len() == j,
            forall|m: int| 0 <= m < j ==> (#[trigger] out@[m])@ == candidate_at(segs, segs.len() - m),
        decreases total - j,
    {
        out.push(string_from_chars(prefixes[total - 1 - j].as_slice()));
        j = j + 1;
    }
    assert(out@.map_values(|s: String| s@) =~= search_candidates(own@));
    out
}

/// What the cgroup preflight reports: the mount and its controller file
/// must exist, the process's own cgroup must be known, and some candidate
/// must have been usable.
pub fn delegated_subtree_status(
    root_is_dir: bool,
    has_controllers_file: bool,
    own_cgroup: &Result<String, String>,
    found_usable: bool,
) -> (s: PrimitiveStatus)
    ensures
        !root_is_dir ==> unavailable_with(s, "no /sys/fs/cgroup mount found"@),
        root_is_dir && !has_controllers_file ==> unavailable_with(
            s,
            "/sys/fs/cgroup has no cgroup.controllers file — not a cgroup v2 (unified) hierarchy"@,
        ),
        root_is_dir && has_controllers_file ==> match own_cgroup {
            Err(e) => unavailable_with(s, "could not read own cgroup: "@ + e@),
            Ok(_) => if found_usable {
                s is Okay
            } else {
                unavailable_with(
                    s,
                    "no writable delegated cgroup subtree with pids.max, memory.max and cpu.max was found"@,
                )
            },
        },
{
    if !root_is_dir {
        return PrimitiveStatus::Unavailable { reason: "no /sys/fs/cgroup mount found".to_string() };
    }
    if !has_controllers_file {
        return PrimitiveStatus::Unavailable {
            reason: "/sys/fs/cgroup has no cgroup.controllers file — not a cgroup v2 (unified) hierarchy".to_string(),
        };
    }
    match own_cgroup {
        Err(e) => {
            let mut out = chars_of("could not read own cgroup: ");
            push_str(&mut out, e.as_str());
            PrimitiveStatus::Unavailable { reason: string_from_chars(out.as_slice()) }
        },
        Ok(_) => {
            if found_usable {
                PrimitiveStatus::Okay
            } else {
                PrimitiveStatus::Unavailable {
                    reason: "no writable delegated cgroup subtree with pids.max, memory.max and cpu.max was found".to_string(),
                }
            }
        },
    }
}

} // verus!
