//! The support-tier table: which commands SafeShell supports, partially
//! supports (with a documented divergence), recognises but does not
//! implement, or denies outright. The table validates itself when built: a
//! command listed in two tiers, or an unknown denied reason code, is an
//! error, never a silently partial table.

use vstd::prelude::*;
use crate::policy::types::{reason_for_code, ReasonCode, SupportTier};
use crate::text::str_eq;

verus! {

/// The command lists of each tier, as the policy file gives them.
pub struct TierSections {
    pub supported: Vec<String>,
    pub partially_supported: Vec<String>,
    pub divergences: Vec<(String, String)>,
    pub unsupported: Vec<String>,
    pub denied: Vec<String>,
    pub denied_reason_code: String,
}

/// Why a table could not be built.
#[derive(Debug)]
pub enum SupportTierLoadError {
    DuplicateCommand { path: String, command: String, first: &'static str, second: &'static str },
    UnknownDeniedReasonCode { path: String, reason_code: String },
}

/// A self-validated support-tier table: every command is in at most one
/// tier.
#[derive(Debug)]
pub struct SupportTierTable {
    tiers: Vec<(String, SupportTier)>,
    divergences: Vec<(String, String)>,
    denied_reason_code: ReasonCode,
}

/// Every command of the policy file with its tier, in file order:
/// supported, partially supported, unsupported, denied.
pub open spec fn listed(sec: TierSections) -> Seq<(Seq<char>, SupportTier)> {
    sec.supported@.map_values(|c: String| (c@, SupportTier::Supported)) + sec.partially_supported@.map_values(
        |c: String| (c@, SupportTier::PartiallySupported),
    ) + sec.unsupported@.map_values(|c: String| (c@, SupportTier::Unsupported))
        + sec.denied@.map_values(|c: String| (c@, SupportTier::Denied))
}

/// The first position `i >= from` whose command already appeared before
/// it, with the position of that earlier appearance.
pub open spec fn first_duplicate(es: Seq<(Seq<char>, SupportTier)>, from: int) -> Option<(int, int)>
    decreases es.len() - from,
{
    if from < 0 || from >= es.len() {
        None
    } else if exists|j: int| 0 <= j < from && es[j].0 == es[from].0 {
        Some((from, earliest(es, es[from].0, 0)))
    } else {
        first_duplicate(es, from + 1)
    }
}

/// The first position of command `c` in `es`, from `j`.
pub open spec fn earliest(es: Seq<(Seq<char>, SupportTier)>, c: Seq<char>, j: int) -> int
    decreases es.len() - j,
{
    if j < 0 || j >= es.len() {
        j
    } else if es[j].0 == c {
        j
    } else {
        earliest(es, c, j + 1)
    }
}

/// Whether no command occurs twice.
pub open spec fn unique_commands(es: Seq<(Seq<char>, SupportTier)>) -> bool {
    forall|i: int, j: int| 0 <= i < j < es.len() ==> es[i].0 != es[j].0
}

/// The failure a table build reports, if any.
pub enum TableFailure {
    DuplicateCommand(Seq<char>, Seq<char>, Seq<char>),
    UnknownDeniedReasonCode(Seq<char>),
}

impl SupportTierLoadError {
    /// The policy file the error names.
    pub open spec fn path_view(&self) -> Seq<char> {
        match self {
            SupportTierLoadError::DuplicateCommand { path, .. } => path@,
            SupportTierLoadError::UnknownDeniedReasonCode { path, .. } => path@,
        }
    }

    pub open spec fn view(&self) -> TableFailure {
        match self {
            SupportTierLoadError::DuplicateCommand { command, first, second, .. } => TableFailure::DuplicateCommand(
                command@,
                first@,
                second@,
            ),
            SupportTierLoadError::UnknownDeniedReasonCode { reason_code, .. } => TableFailure::UnknownDeniedReasonCode(
                reason_code@,
            ),
        }
    }
}

/// What building a table from the sections gives: the first duplicate
/// command (naming its first and second tier), else an unknown reason
/// code, else success.
pub open spec fn table_check(sec: TierSections) -> Option<TableFailure> {
    let es = listed(sec);
    match first_duplicate(es, 0) {
        Some((i, j)) => Some(TableFailure::DuplicateCommand(es[i].0, es[j].1.name(), es[i].1.name())),
        None => if reason_for_code(sec.denied_reason_code@) is None {
            Some(TableFailure::UnknownDeniedReasonCode(sec.denied_reason_code@))
        } else {
            None
        },
    }
}

/// The tier of `name` among `es`: its listed tier, else unsupported.
pub open spec fn tier_in(es: Seq<(Seq<char>, SupportTier)>, name: Seq<char>) -> SupportTier {
    if exists|k: int| 0 <= k < es.len() && es[k].0 == name {
        es[earliest(es, name, 0)].1
    } else {
        SupportTier::Unsupported
    }
}

/// The divergence text documented for `name`, from position `k` on.
pub open spec fn divergence_in(ds: Seq<(Seq<char>, Seq<char>)>, name: Seq<char>, k: int) -> Option<Seq<char>>
    decreases ds.len() - k,
{
    if k < 0 || k >= ds.len() {
        None
    } else if ds[k].0 == name {
        Some(ds[k].1)
    } else {
        divergence_in(ds, name, k + 1)
    }
}

proof fn lemma_earliest(es: Seq<(Seq<char>, SupportTier)>, c: Seq<char>, j: int)
    requires
        0 <= j <= es.len(),
    ensures
        j <= earliest(es, c, j) <= es.len(),
        earliest(es, c, j) < es.len() ==> es[earliest(es, c, j)].0 == c,
        forall|k: int| j <= k < earliest(es, c, j) ==> es[k].0 != c,
    decreases es.len() - j,
{
    if j < es.len() && es[j].0 != c {
        lemma_earliest(es, c, j + 1);
    }
}

proof fn lemma_first_duplicate(es: Seq<(Seq<char>, SupportTier)>, from: int)
    requires
        0 <= from <= es.len(),
        forall|i: int, j: int| 0 <= i < j < from ==> es[i].0 != es[j].0,
    ensures
        first_duplicate(es, from) is None ==> unique_commands(es),
    decreases es.len() - from,
{
    if from < es.len() {
        if !(exists|j: int| 0 <= j < from && es[j].0 == es[from].0) {
            lemma_first_duplicate(es, from + 1);
        }
    }
}

pub open spec fn tiers_view(t: Seq<(String, SupportTier)>) -> Seq<(Seq<char>, SupportTier)> {
    t.map_values(|e: (String, SupportTier)| (e.0@, e.1))
}

pub open spec fn divergences_view(d: Seq<(String, String)>) -> Seq<(Seq<char>, Seq<char>)> {
    d.map_values(|e: (String, String)| (e.0@, e.1@))
}


/// Adds the commands of one tier to `tiers`, refusing a command already
/// listed (in this or an earlier tier).
fn insert_tier(
    list: &Vec<String>,
    tier: SupportTier,
    tiers: &mut Vec<(String, SupportTier)>,
    Ghost(es): Ghost<Seq<(Seq<char>, SupportTier)>>,
    path: &str,
) -> (r: Result<(), SupportTierLoadError>)
    requires
        tiers_view(old(tiers)@) == es.subrange(0, old(tiers)@.len() as int),
        old(tiers)@.len() + list@.len() <= es.len(),
        es.subrange(old(tiers)@.len() as int, (old(tiers)@.len() + list@.len()) as int) == list@.map_values(
            |c: String| (c@, tier),
        ),
        unique_commands(tiers_view(old(tiers)@)),
    ensures
        match r {
            Ok(()) => {
                &&& final(tiers)@.len() == old(tiers)@.len() + list@.len()
                &&& tiers_view(final(tiers)@) == es.subrange(0, final(tiers)@.len() as int)
                &&& unique_commands(tiers_view(final(tiers)@))
                &&& first_duplicate(es, old(tiers)@.len() as int) == first_duplicate(
                    es,
                    final(tiers)@.len() as int,
                )
            },
            Err(e) => first_duplicate(es, old(tiers)@.len() as int) matches Some((i, j)) && e.view()
                == TableFailure::DuplicateCommand(es[i].0, es[j].1.name(), es[i].1.name()) && e.path_view()
                == path@,
        },
{
    let ghost n0 = tiers@.len() as int;
    let mut ci: usize = 0;
    while ci < list.len()
        invariant
            n0 == old(tiers)@.len(),
            n0 + list@.len() <= es.len(),
            es.subrange(n0, n0 + list@.len()) == list@.map_values(|c: String| (c@, tier)),
            ci <= list@.len(),
            tiers@.len() == n0 + ci,
            tiers_view(tiers@) == es.subrange(0, tiers@.len() as int),
            unique_commands(tiers_view(tiers@)),
            first_duplicate(es, n0) == first_duplicate(es, tiers@.len() as int),
        decreases list.len() - ci,
    {
        let name = &list[ci];
        let ghost n = tiers@.len() as int;
        assert(es.subrange(n0, n0 + list@.len())[ci as int] == es[n]);
        assert(es[n] == (name@, tier));
        let mut k: usize = 0;
        while k < tiers.len()
            invariant
                tiers_view(tiers@) == es.subrange(0, n),
                first_duplicate(es, n0) == first_duplicate(es, n),
                n0 == old(tiers)@.len(),
                n == tiers@.len(),
                n < es.len(),
                es[n] == (name@, tier),
                k <= tiers@.len(),
                forall|m: int| 0 <= m < k ==> es[m].0 != name@,
            decreases tiers.len() - k,
        {
            assert(tiers_view(tiers@)[k as int] == es[k as int]);
            if str_eq(tiers[k].0.as_str(), name.as_str()) {
                proof {
                    lemma_earliest(es, name@, 0);
                    assert(es[k as int].0 == es[n].0);
                }
                let first_tier = tiers[k].1;
                let command = name.clone();
                assert(earliest(es, name@, 0) == k);
                assert(first_duplicate(es, n) == Some((n, k as int)));
                return Err(
                    SupportTierLoadError::DuplicateCommand {
                        path: path.to_owned(),
                        command,
                        first: first_tier.as_str(),
                        second: tier.as_str(),
                    },
                );
            }
            k = k + 1;
        }
        let ghost before = tiers_view(tiers@);
        tiers.push((name.clone(), tier));
        assert(tiers_view(tiers@) =~= before.push((name@, tier)));
        assert(es.subrange(0, n + 1) =~= es.subrange(0, n).push(es[n]));
        assert(!(exists|j: int| 0 <= j < n && es[j].0 == es[n].0));
        ci = ci + 1;
    }
    Ok(())
}

impl SupportTierTable {
    /// Every command with its tier.
    pub closed spec fn entries(&self) -> Seq<(Seq<char>, SupportTier)> {
        tiers_view(self.tiers@)
    }

    /// The documented divergences.
    pub closed spec fn divergence_entries(&self) -> Seq<(Seq<char>, Seq<char>)> {
        divergences_view(self.divergences@)
    }

    /// The reason code every denied command is denied with.
    pub closed spec fn denied_code(&self) -> ReasonCode {
        self.denied_reason_code
    }

    #[verifier::type_invariant]
    closed spec fn no_command_twice(self) -> bool {
        unique_commands(tiers_view(self.tiers@))
    }

    /// Builds and validates a table from the command lists of the policy
    /// file (`path` is only used in error messages).
    pub fn from_sections(sections: TierSections, path: &str) -> (r: Result<Self, SupportTierLoadError>)
        ensures
            match (r, table_check(sections)) {
                (Ok(t), None) => t.entries() == listed(sections) && t.divergence_entries()
                    == divergences_view(sections.divergences@) && reason_for_code(
                    sections.denied_reason_code@,
                ) == Some(t.denied_code()),
                (Err(e), Some(f)) => e.view() == f,
                _ => false,
            },
            r matches Ok(t) ==> unique_commands(t.entries()),
            r matches Err(e) ==> e.path_view() == path@,
    {
        let ghost es = listed(sections);
        let ghost p0 = sections.supported@.map_values(|c: String| (c@, SupportTier::Supported));
        let ghost p1 = sections.partially_supported@.map_values(|c: String| (c@, SupportTier::PartiallySupported));
        let ghost p2 = sections.unsupported@.map_values(|c: String| (c@, SupportTier::Unsupported));
        let ghost p3 = sections.denied@.map_values(|c: String| (c@, SupportTier::Denied));
        let ghost n1 = p0.len() as int;
        let ghost n2 = n1 + p1.len();
        let ghost n3 = n2 + p2.len();
        assert(es =~= p0 + p1 + p2 + p3);
        assert(es.subrange(0, n1) =~= p0);
        assert(es.subrange(n1, n2) =~= p1);
        assert(es.subrange(n2, n3) =~= p2);
        assert(es.subrange(n3, es.len() as int) =~= p3);
        let mut tiers: Vec<(String, SupportTier)> = Vec::new();
        assert(tiers_view(tiers@) =~= es.subrange(0, 0));
        match insert_tier(&sections.supported, SupportTier::Supported, &mut tiers, Ghost(es), path) {
            Ok(()) => {},
            Err(e) => return Err(e),
        }
        match insert_tier(&sections.partially_supported, SupportTier::PartiallySupported, &mut tiers, Ghost(es), path) {
            Ok(()) => {},
            Err(e) => return Err(e),
        }
        match insert_tier(&sections.unsupported, SupportTier::Unsupported, &mut tiers, Ghost(es), path) {
            Ok(()) => {},
            Err(e) => return Err(e),
        }
        match insert_tier(&sections.denied, SupportTier::Denied, &mut tiers, Ghost(es), path) {
            Ok(()) => {},
            Err(e) => return Err(e),
        }
        assert(es.subrange(0, es.len() as int) =~= es);
        assert(first_duplicate(es, es.len() as int) is None);
        let code = match crate::policy::types::ReasonCode::from_code_str(sections.denied_reason_code.as_str()) {
            Some(c) => c,
            None => {
                return Err(
                    SupportTierLoadError::UnknownDeniedReasonCode {
                        path: path.to_owned(),
                        reason_code: sections.denied_reason_code,
                    },
                );
            },
        };
        let table = SupportTierTable { tiers, divergences: sections.divergences, denied_reason_code: code };
        Ok(table)
    }

    /// The tier of a command; commands the table does not list are
    /// unsupported.
    pub fn resolve(&self, command_name: &str) -> (t: SupportTier)
        ensures
            t == tier_in(self.entries(), command_name@),
    {
        let ghost es = self.entries();
        let mut k: usize = 0;
        while k < self.tiers.len()
            invariant
                es == tiers_view(self.tiers@),
                k <= self.tiers@.len(),
                forall|m: int| 0 <= m < k ==> es[m].0 != command_name@,
            decreases self.tiers.len() - k,
        {
            assert(es[k as int] == (self.tiers@[k as int].0@, self.tiers@[k as int].1));
            if str_eq(self.tiers[k].0.as_str(), command_name) {
                proof {
                    lemma_earliest(es, command_name@, 0);
                }
                return self.tiers[k].1;
            }
            k = k + 1;
        }
        SupportTier::Unsupported
    }

    /// The reason code denied commands are denied with.
    pub fn denied_reason_code(&self) -> (c: ReasonCode)
        ensures
            c == self.denied_code(),
    {
        self.denied_reason_code
    }

    /// The documented divergence of a partially supported command.
    pub fn divergence(&self, command_name: &str) -> (r: Option<&str>)
        ensures
            match (r, divergence_in(self.divergence_entries(), command_name@, 0)) {
                (Some(s), Some(d)) => s@ == d,
                (None, None) => true,
                _ => false,
            },
    {
        let ghost ds = self.divergence_entries();
        let mut k: usize = 0;
        while k < self.divergences.len()
            invariant
                ds == divergences_view(self.divergences@),
                k <= self.divergences@.len(),
                divergence_in(ds, command_name@, 0) == divergence_in(ds, command_name@, k as int),
            decreases self.divergences.len() - k,
        {
            assert(ds[k as int] == (self.divergences@[k as int].0@, self.divergences@[k as int].1@));
            if str_eq(self.divergences[k].0.as_str(), command_name) {
                return Some(self.divergences[k].1.as_str());
            }
            k = k + 1;
        }
        None
    }

    /// The commands of the denied tier, in table order.
    pub fn known_denied_commands(&self) -> (r: Vec<String>)
        ensures
            r@.map_values(|s: String| s@) == denied_names(self.entries()),
    {
        let ghost es = self.entries();
        let mut out: Vec<String> = Vec::new();
        let mut k: usize = 0;
        assert(out@.map_values(|s: String| s@) =~= denied_names(es.take(0)));
        while k < self.tiers.len()
            invariant
                es == tiers_view(self.tiers@),
                k <= self.tiers@.len(),
                out@.map_values(|s: String| s@) == denied_names(es.take(k as int)),
            decreases self.tiers.len() - k,
        {
            let ghost before = out@.map_values(|s: String| s@);
            assert(es[k as int] == (self.tiers@[k as int].0@, self.tiers@[k as int].1));
            assert(es.take(k + 1).drop_last() =~= es.take(k as int));
            assert(es.take(k + 1).last() == es[k as int]);
            if self.tiers[k].1 == SupportTier::Denied {
                out.push(self.tiers[k].0.clone());
                assert(out@.map_values(|s: String| s@) =~= before.push(es[k as int].0));
            }
            k = k + 1;
        }
        assert(es.take(es.len() as int) =~= es);
        out
    }
}

/// The commands listed as denied, in order.
pub open spec fn denied_names(es: Seq<(Seq<char>, SupportTier)>) -> Seq<Seq<char>>
    decreases es.len(),
{
    if es.len() == 0 {
        Seq::empty()
    } else if es.last().1 == SupportTier::Denied {
        denied_names(es.drop_last()).push(es.last().0)
    } else {
        denied_names(es.drop_last())
    }
}

/// Reads a reason code from its upper-case form.
pub fn parse_reason_code(s: &str) -> (r: Option<ReasonCode>)
    ensures
        r == reason_for_code(s@),
{
    ReasonCode::from_code_str(s)
}

} // verus!
