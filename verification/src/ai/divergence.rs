//! Divergence between what an AI plan claims and what policy and simulation
//! observed, recorded for display only: it never changes a routing decision.

use vstd::prelude::*;
use crate::ai::schema::PredictedEffects;
use crate::simulation::diff::{SimulationDiff, string_views};
use crate::text::str_eq;

verus! {

/// Which claim of the plan diverged.
#[derive(Debug, Clone, Copy, PartialEq, Eq, Structural)]
pub enum DivergedField {
    EscapesSandbox,
    AffectedResources,
}

/// A claim of the plan next to what was actually observed.
#[derive(Debug, Clone, PartialEq, Eq)]
pub struct DivergenceFinding {
    pub field: DivergedField,
    pub ai_claimed: String,
    pub ground_truth: String,
}

/// The debug rendering of a list of strings, `["a", "b"]`, as std's `Debug`
/// for `Vec<String>` writes it.
pub uninterp spec fn debug_list_text(items: Seq<Seq<char>>) -> Seq<char>;

/// Formats `items` with std's `Debug` for `Vec<String>`. The contract names
/// the text only: its escaping rules are std's.
#[verifier::external_body]
fn debug_string_list(items: &Vec<String>) -> (s: String)
    ensures
        s@ == debug_list_text(string_views(items@)),
{
    format!("{:?}", items)
}

/// A plan that says the command escapes the sandbox diverges: policy has
/// already ruled every escape out before a plan is asked for.
pub fn detect_escapes_sandbox_divergence(effects: &PredictedEffects) -> (r: Option<DivergenceFinding>)
    ensures
        effects.escapes_sandbox <==> r is Some,
        r matches Some(f) ==> {
            &&& f.field == DivergedField::EscapesSandbox
            &&& f.ai_claimed@ == "true"@
            &&& f.ground_truth@ == "false"@
        },
{
    if effects.escapes_sandbox {
        Some(
            DivergenceFinding {
                field: DivergedField::EscapesSandbox,
                ai_claimed: "true".to_string(),
                ground_truth: "false".to_string(),
            },
        )
    } else {
        None
    }
}

/// The paths a simulation actually touched, in the order the diff lists
/// them: created files, modified files, created directories.
pub open spec fn touched_paths(d: SimulationDiff) -> Seq<Seq<char>> {
    string_views(d.files_created@) + string_views(d.files_modified@) + string_views(
        d.directories_created@,
    )
}

/// `s` with later repeats of an element left out.
pub open spec fn dedup(s: Seq<Seq<char>>) -> Seq<Seq<char>>
    decreases s.len(),
{
    if s.len() == 0 {
        Seq::empty()
    } else {
        let d = dedup(s.drop_last());
        if d.contains(s.last()) {
            d
        } else {
            d.push(s.last())
        }
    }
}

/// Whether the claimed and the touched paths share nothing while not both
/// being empty.
pub open spec fn resources_diverge(claimed: Seq<Seq<char>>, touched: Seq<Seq<char>>) -> bool {
    &&& !(claimed.len() == 0 && touched.len() == 0)
    &&& !(exists|p: Seq<char>| claimed.contains(p) && touched.contains(p))
}

proof fn lemma_dedup_contains(s: Seq<Seq<char>>, p: Seq<char>)
    ensures
        dedup(s).contains(p) <==> s.contains(p),
    decreases s.len(),
{
    if s.len() > 0 {
        lemma_dedup_contains(s.drop_last(), p);
        let d = dedup(s.drop_last());
        if s.contains(p) && p != s.last() {
            let i = choose|i: int| 0 <= i < s.len() && s[i] == p;
            assert(s.drop_last()[i] == p);
        }
        if s.drop_last().contains(p) {
            let i = choose|i: int| 0 <= i < s.drop_last().len() && s.drop_last()[i] == p;
            assert(s[i] == p);
        }
        if !d.contains(s.last()) {
            assert(d.push(s.last()).last() == s.last());
            if d.contains(p) {
                let i = choose|i: int| 0 <= i < d.len() && d[i] == p;
                assert(d.push(s.last())[i] == p);
            }
            if d.push(s.last()).contains(p) && p != s.last() {
                let i = choose|i: int| 0 <= i < d.len() + 1 && d.push(s.last())[i] == p;
                assert(d[i] == p);
            }
        }
    }
}

fn contains_string(v: &Vec<String>, s: &String) -> (r: bool)
    ensures
        r == string_views(v@).contains(s@),
{
    let mut i: usize = 0;
    while i < v.len()
        invariant
            i <= v@.len(),
            forall|k: int| 0 <= k < i ==> v@[k]@ != s@,
        decreases v.len() - i,
    {
        if str_eq(v[i].as_str(), s.as_str()) {
            assert(string_views(v@)[i as int] == s@);
            return true;
        }
        i = i + 1;
    }
    assert forall|k: int| 0 <= k < string_views(v@).len() implies string_views(v@)[k] != s@ by {
        assert(string_views(v@)[k] == v@[k]@);
    }
    false
}

fn push_unique(out: &mut Vec<String>, items: &Vec<String>, Ghost(start): Ghost<Seq<Seq<char>>>)
    requires
        string_views(old(out)@) == dedup(start),
    ensures
        string_views(final(out)@) == dedup(start + string_views(items@)),
{
    let mut i: usize = 0;
    assert(start + string_views(items@).take(0) =~= start);
    while i < items.len()
        invariant
            i <= items@.len(),
            string_views(out@) == dedup(start + string_views(items@).take(i as int)),
        decreases items.len() - i,
    {
        let ghost prefix = start + string_views(items@).take(i as int);
        let ghost next = start + string_views(items@).take(i + 1);
        assert(next.drop_last() =~= prefix);
        assert(next.last() == items@[i as int]@);
        if !contains_string(out, &items[i]) {
            let ghost before = string_views(out@);
            let item = items[i].clone();
            out.push(item);
            assert(string_views(out@) =~= before.push(items@[i as int]@));
        }
        i = i + 1;
    }
    assert(string_views(items@).take(items@.len() as int) =~= string_views(items@));
}

/// A plan whose claimed resources share no path with what the simulation
/// touched diverges; no finding when both are empty or when they overlap.
/// The ground truth lists each touched path once, in the order the diff
/// lists them.
pub fn detect_affected_resources_divergence(
    affected_resources: &Vec<String>,
    diff: &SimulationDiff,
) -> (r: Option<DivergenceFinding>)
    ensures
        r is Some <==> resources_diverge(string_views(affected_resources@), touched_paths(*diff)),
        r matches Some(f) ==> {
            &&& f.field == DivergedField::AffectedResources
            &&& f.ai_claimed@ == debug_list_text(string_views(affected_resources@))
            &&& f.ground_truth@ == debug_list_text(dedup(touched_paths(*diff)))
        },
{
    let mut touched: Vec<String> = Vec::new();
    let ghost e = Seq::<Seq<char>>::empty();
    assert(string_views(touched@) =~= dedup(e));
    push_unique(&mut touched, &diff.files_created, Ghost(e));
    let ghost e1 = e + string_views(diff.files_created@);
    push_unique(&mut touched, &diff.files_modified, Ghost(e1));
    let ghost e2 = e1 + string_views(diff.files_modified@);
    push_unique(&mut touched, &diff.directories_created, Ghost(e2));
    proof {
        assert(e2 + string_views(diff.directories_created@) =~= touched_paths(*diff));
    }
    let ghost claimed = string_views(affected_resources@);
    let ghost all = touched_paths(*diff);
    let mut shared = false;
    let mut i: usize = 0;
    while i < affected_resources.len()
        invariant
            i <= affected_resources@.len(),
            claimed == string_views(affected_resources@),
            string_views(touched@) == dedup(all),
            !shared ==> forall|k: int| 0 <= k < i ==> !all.contains(#[trigger] claimed[k]),
            shared ==> exists|p: Seq<char>| claimed.contains(p) && all.contains(p),
        decreases affected_resources.len() - i,
    {
        if !shared && contains_string(&touched, &affected_resources[i]) {
            proof {
                lemma_dedup_contains(all, affected_resources@[i as int]@);
                assert(claimed[i as int] == affected_resources@[i as int]@);
                assert(claimed.contains(claimed[i as int]));
            }
            shared = true;
        } else if !shared {
            proof {
                lemma_dedup_contains(all, affected_resources@[i as int]@);
                assert(claimed[i as int] == affected_resources@[i as int]@);
            }
        }
        i = i + 1;
    }
    proof {
        if !shared {
            assert forall|p: Seq<char>| !(claimed.contains(p) && all.contains(p)) by {
                if claimed.contains(p) {
                    let k = choose|k: int| 0 <= k < claimed.len() && claimed[k] == p;
                    assert(!all.contains(claimed[k]));
                }
            }
        }
    }
    if shared {
        return None;
    }
    if affected_resources.len() == 0 && touched.len() == 0 {
        proof {
            if all.len() > 0 {
                lemma_dedup_contains(all, all[0]);
                assert(all.contains(all[0]));
            }
        }
        return None;
    }
    proof {
        if all.len() == 0 {
            assert(dedup(all) =~= Seq::<Seq<char>>::empty());
        }
    }
    Some(
        DivergenceFinding {
            field: DivergedField::AffectedResources,
            ai_claimed: debug_string_list(affected_resources),
            ground_truth: debug_string_list(&touched),
        },
    )
}

} // verus!
