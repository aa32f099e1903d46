//! The rollback engine: which checkpoint each recovery action lands on,
//! the restore through the simulation backend, and the check that the
//! active write layer is empty afterwards, a restore that leaves it dirty
//! being reported as failed, never trusted. The layers are directories on
//! the host; the backend restores them and reports what it sees.

use vstd::prelude::*;
use crate::ids::{decode_ulid, encode_ulid, lemma_ulid_text_round_trip, ulid_decode, ulid_text};
use crate::text::{chars_of, has_prefix, push_str, starts_with, string_from_chars};

verus! {

/// A sealed checkpoint, identified by the 128-bit value of its ULID.
#[derive(Debug, Clone, Copy, PartialEq, Eq, Structural)]
pub struct CheckpointId(pub u128);

/// The name a checkpoint is shown and stored under: `ckpt_` and its ULID
/// text.
pub open spec fn checkpoint_name(id: CheckpointId) -> Seq<char> {
    "ckpt_"@ + ulid_text(id.0)
}

/// The checkpoint a name stands for: `ckpt_` followed by a ULID text, and
/// none for any other text.
pub open spec fn named_checkpoint(s: Seq<char>) -> Option<CheckpointId> {
    if has_prefix(s, "ckpt_"@) {
        match ulid_decode(s.skip(5)) {
            Some(v) => Some(CheckpointId(v)),
            None => None,
        }
    } else {
        None
    }
}

/// A checkpoint's name reads back as the same checkpoint.
pub proof fn lemma_checkpoint_name_round_trip(id: CheckpointId)
    ensures
        named_checkpoint(checkpoint_name(id)) == Some(id),
{
    reveal_strlit("ckpt_");
    let name = checkpoint_name(id);
    assert(name.subrange(0, 5) =~= "ckpt_"@);
    assert(name.skip(5) =~= ulid_text(id.0));
    lemma_ulid_text_round_trip(id.0);
}

impl CheckpointId {
    /// The checkpoint as shown and stored: `ckpt_` and its ULID text.
    pub fn display(&self) -> (s: String)
        ensures
            s@ == checkpoint_name(*self),
    {
        let mut out = chars_of("ckpt_");
        let text = encode_ulid(self.0);
        push_str(&mut out, text.as_str());
        string_from_chars(out.as_slice())
    }
}

/// What a rollback did.
#[derive(Debug, Clone, PartialEq, Eq)]
pub struct RollbackOutcome {
    pub success: bool,
    /// The checkpoint the environment now sits above, if any (`None` only
    /// when rolled all the way back to the consolidated base).
    pub restored_checkpoint_id: Option<CheckpointId>,
    pub failure_detail: Option<String>,
}

/// There is no checkpoint left to undo.
#[derive(Debug, Clone, Copy, PartialEq, Eq, Structural)]
pub struct NoRecoverableCheckpoint;

/// Where an automatic rollback lands: the newest checkpoint (only the
/// active write layer is discarded), or the base when there is none.
pub fn automatic_rollback_target(checkpoints: &[CheckpointId]) -> (r: Option<CheckpointId>)
    ensures
        r == (if checkpoints@.len() == 0 {
            None
        } else {
            Some(checkpoints@.last())
        }),
{
    if checkpoints.len() == 0 {
        None
    } else {
        Some(checkpoints[checkpoints.len() - 1])
    }
}

/// Where undoing the last transaction lands: the checkpoint beneath the
/// newest one, or the base when the newest is the only one; refused when
/// there is no checkpoint at all.
pub fn undo_last_transaction_target(checkpoints: &[CheckpointId]) -> (r: Result<
    Option<CheckpointId>,
    NoRecoverableCheckpoint,
>)
    ensures
        checkpoints@.len() == 0 ==> r == Err::<Option<CheckpointId>, NoRecoverableCheckpoint>(
            NoRecoverableCheckpoint,
        ),
        checkpoints@.len() == 1 ==> r == Ok::<Option<CheckpointId>, NoRecoverableCheckpoint>(None),
        checkpoints@.len() >= 2 ==> r == Ok::<Option<CheckpointId>, NoRecoverableCheckpoint>(
            Some(checkpoints@[checkpoints@.len() - 2]),
        ),
{
    if checkpoints.len() == 0 {
        return Err(NoRecoverableCheckpoint);
    }
    if checkpoints.len() >= 2 {
        Ok(Some(checkpoints[checkpoints.len() - 2]))
    } else {
        Ok(None)
    }
}

/// Whether `id` is one of the session's retained checkpoints, the only
/// ones a user may restore to.
pub fn is_retained(checkpoints: &[CheckpointId], id: CheckpointId) -> (b: bool)
    ensures
        b == checkpoints@.contains(id),
{
    let mut i: usize = 0;
    while i < checkpoints.len()
        invariant
            i <= checkpoints@.len(),
            forall|k: int| 0 <= k < i ==> checkpoints@[k] != id,
        decreases checkpoints.len() - i,
    {
        if checkpoints[i] == id {
            return true;
        }
        i = i + 1;
    }
    false
}

/// Whether the active write layer is empty after a restore, from what was
/// seen of it: whether it is a directory, and listing it (whether it has an
/// entry, or why it could not be listed).
pub fn check_active_write_empty(is_dir: bool, path_display: &str, listing: Result<bool, String>) -> (r:
    Result<(), String>)
    ensures
        !is_dir ==> (r matches Err(m) && m@ == "active write layer missing after restore: "@
            + path_display@),
        is_dir ==> match listing {
            Err(e) => r matches Err(m) && m@ == e@,
            Ok(true) => r matches Err(m) && m@ == "active write layer is not empty after restore"@,
            Ok(false) => r is Ok,
        },
{
    if !is_dir {
        let mut msg = chars_of("active write layer missing after restore: ");
        push_str(&mut msg, path_display);
        return Err(string_from_chars(msg.as_slice()));
    }
    match listing {
        Err(e) => Err(e),
        Ok(true) => Err("active write layer is not empty after restore".to_string()),
        Ok(false) => Ok(()),
    }
}

/// What a restore to `target` reports: a failed restore with its error, a
/// restore whose write layer is not clean with that finding, or success.
/// The target is reported either way.
pub fn restore_and_verify(
    target: Option<CheckpointId>,
    restore: Result<(), String>,
    write_layer: Result<(), String>,
) -> (r: RollbackOutcome)
    ensures
        r.restored_checkpoint_id == target,
        r.success == (restore is Ok && write_layer is Ok),
        restore matches Err(e) ==> (r.failure_detail matches Some(d) && d@ == e@),
        restore is Ok ==> match write_layer {
            Err(e) => r.failure_detail matches Some(d) && d@ == e@,
            Ok(_) => r.failure_detail is None,
        },
{
    match restore {
        Ok(()) => match write_layer {
            Ok(()) => RollbackOutcome { success: true, restored_checkpoint_id: target, failure_detail: None },
            Err(detail) => RollbackOutcome {
                success: false,
                restored_checkpoint_id: target,
                failure_detail: Some(detail),
            },
        },
        Err(e) => RollbackOutcome { success: false, restored_checkpoint_id: target, failure_detail: Some(e) },
    }
}

/// The checkpoint named `ckpt_<ULID>`, or `None` for any other text.
pub fn parse_checkpoint_id(s: &str) -> (r: Option<CheckpointId>)
    ensures
        r == named_checkpoint(s@),
{
    let cs = chars_of(s);
    let prefix = chars_of("ckpt_");
    proof {
        reveal_strlit("ckpt_");
    }
    if !starts_with(cs.as_slice(), prefix.as_slice()) {
        return None;
    }
    let mut rest: Vec<char> = Vec::new();
    let mut i: usize = 5;
    while i < cs.len()
        invariant
            5 <= i <= cs@.len(),
            rest@ == cs@.subrange(5, i as int),
        decreases cs.len() - i,
    {
        rest.push(cs[i]);
        i = i + 1;
        assert(rest@ =~= cs@.subrange(5, i as int));
    }
    assert(rest@ =~= s@.skip(5));
    let text = string_from_chars(rest.as_slice());
    match decode_ulid(text.as_str()) {
        Some(v) => Some(CheckpointId(v)),
        None => None,
    }
}


/// A session's layers: the base image, the sealed checkpoints from oldest
/// to newest, and the active write layer above them.
pub struct LayerStack {
    pub base: std::path::PathBuf,
    pub checkpoints: Vec<(CheckpointId, std::path::PathBuf)>,
    pub active_write: std::path::PathBuf,
}

/// The ids of a stack's checkpoints, oldest first.
pub open spec fn checkpoint_ids(layers: LayerStack) -> Seq<CheckpointId> {
    layers.checkpoints@.map_values(|c: (CheckpointId, std::path::PathBuf)| c.0)
}

/// The first position of `t` in `ids` from `from` on (`ids.len()` when it
/// does not occur there).
pub open spec fn first_index(ids: Seq<CheckpointId>, t: CheckpointId, from: int) -> int
    decreases ids.len() - from,
{
    if from < 0 || from >= ids.len() {
        ids.len() as int
    } else if ids[from] == t {
        from
    } else {
        first_index(ids, t, from + 1)
    }
}

/// How many of the checkpoints `ids` a restore to `target` keeps: none for
/// the base, those up to and including the target's first occurrence for
/// a checkpoint; `None` when the target is not retained.
pub open spec fn kept_count(ids: Seq<CheckpointId>, target: Option<CheckpointId>) -> Option<int> {
    match target {
        None => Some(0),
        Some(t) => if first_index(ids, t, 0) < ids.len() {
            Some(first_index(ids, t, 0) + 1)
        } else {
            None
        },
    }
}

/// Whether `after` is `before` restored to `target`: the checkpoints above
/// the target are gone, the ones up to it stay as they were, and the base
/// and the write layer's place are unchanged.
pub open spec fn restored_to(before: LayerStack, after: LayerStack, target: Option<CheckpointId>) -> bool {
    &&& kept_count(checkpoint_ids(before), target) matches Some(k)
    &&& after.checkpoints@ == before.checkpoints@.take(k)
    &&& after.base == before.base
    &&& after.active_write == before.active_write
}

/// The simulation backend's part in a rollback: it restores the stack to
/// a checkpoint (or the base), and reports on the active write layer.
pub trait SimulationBackend {
    /// Discards everything above `target` (a retained checkpoint, or the
    /// base) and mounts a fresh write layer; on success the stack keeps
    /// exactly the checkpoints up to the target.
    fn restore_to(&self, layers: &mut LayerStack, target: Option<CheckpointId>) -> (r: Result<(), String>)
        ensures
            r is Ok ==> restored_to(*old(layers), *final(layers), target),
    ;

    /// Whether the active write layer is a directory, and how it is shown.
    fn active_write_directory(&self, layers: &LayerStack) -> (bool, String);

    /// Whether the active write layer has an entry, or why it could not be
    /// listed.
    fn active_write_has_entries(&self, layers: &LayerStack) -> Result<bool, String>;
}

/// Whether no checkpoint id occurs twice.
pub open spec fn distinct_ids(ids: Seq<CheckpointId>) -> bool {
    forall|i: int, j: int| 0 <= i < j < ids.len() ==> ids[i] != ids[j]
}

proof fn lemma_first_index_of_distinct(ids: Seq<CheckpointId>, k: int, from: int)
    requires
        distinct_ids(ids),
        0 <= from <= k < ids.len(),
    ensures
        first_index(ids, ids[k], from) == k,
    decreases k - from,
{
    if from < k {
        assert(ids[from] != ids[k]);
        lemma_first_index_of_distinct(ids, k, from + 1);
    }
}

/// Among distinct checkpoints, restoring to the one at position `k` keeps
/// exactly the first `k + 1`, and restoring to the base keeps none.
pub proof fn lemma_restore_keeps_through_target(ids: Seq<CheckpointId>, k: int)
    requires
        distinct_ids(ids),
        0 <= k < ids.len(),
    ensures
        kept_count(ids, Some(ids[k])) == Some(k + 1),
        kept_count(ids, None) == Some(0int),
{
    lemma_first_index_of_distinct(ids, k, 0);
}

/// What a successful automatic rollback (or restore to the newest
/// checkpoint) leaves: the outcome names the newest checkpoint (or the
/// base), success pairs with no failure detail, and on success the stack is
/// restored to that target.
pub open spec fn newest_restore(before: LayerStack, after: LayerStack, r: RollbackOutcome) -> bool {
    let ids = checkpoint_ids(before);
    let target = if ids.len() == 0 {
        None
    } else {
        Some(ids.last())
    };
    &&& r.restored_checkpoint_id == target
    &&& (r.success <==> r.failure_detail is None)
    &&& r.success ==> restored_to(before, after, target)
}

/// The ids of a stack's checkpoints.
fn ids_of(layers: &LayerStack) -> (v: Vec<CheckpointId>)
    ensures
        v@ == checkpoint_ids(*layers),
{
    let mut v: Vec<CheckpointId> = Vec::new();
    let mut i: usize = 0;
    while i < layers.checkpoints.len()
        invariant
            i <= layers.checkpoints@.len(),
            v@ == checkpoint_ids(*layers).take(i as int),
        decreases layers.checkpoints.len() - i,
    {
        v.push(layers.checkpoints[i].0);
        i = i + 1;
        assert(v@ =~= checkpoint_ids(*layers).take(i as int));
    }
    assert(checkpoint_ids(*layers).take(i as int) =~= checkpoint_ids(*layers));
    v
}

/// Restores to `target` and checks that the active write layer is empty
/// after it: the outcome names the target either way, and carries the
/// failure when the restore or the check failed.
fn restore_then_verify<B: SimulationBackend>(backend: &B, layers: &mut LayerStack, target: Option<CheckpointId>) -> (r:
    RollbackOutcome)
    ensures
        r.restored_checkpoint_id == target,
        r.success <==> r.failure_detail is None,
        r.success ==> restored_to(*old(layers), *final(layers), target),
{
    let restore = backend.restore_to(layers, target);
    let write_layer = if restore.is_ok() {
        let (is_dir, shown) = backend.active_write_directory(layers);
        let listing = if is_dir {
            backend.active_write_has_entries(layers)
        } else {
            Ok(false)
        };
        check_active_write_empty(is_dir, shown.as_str(), listing)
    } else {
        Ok(())
    };
    restore_and_verify(target, restore, write_layer)
}

/// The automatic rollback after a failed execution or a verification
/// mismatch: keeps the newest checkpoint and discards only the active
/// write layer above it.
pub fn automatic_rollback<B: SimulationBackend>(backend: &B, layers: &mut LayerStack) -> (r: RollbackOutcome)
    ensures
        newest_restore(*old(layers), *final(layers), r),
        distinct_ids(checkpoint_ids(*old(layers))) && r.success ==> final(layers).checkpoints@
            == old(layers).checkpoints@,
{
    let ids = ids_of(layers);
    let target = automatic_rollback_target(ids.as_slice());
    let ghost before = *layers;
    let r = restore_then_verify(backend, layers, target);
    proof {
        let cs = checkpoint_ids(before);
        if distinct_ids(cs) && cs.len() > 0 {
            lemma_restore_keeps_through_target(cs, cs.len() - 1);
            assert(before.checkpoints@.take(cs.len() as int) =~= before.checkpoints@);
        }
        if cs.len() == 0 {
            assert(before.checkpoints@.take(0) =~= before.checkpoints@);
        }
    }
    r
}

/// Undoes the last committed transaction, strictly last in first out:
/// discards the newest checkpoint too, landing on the one beneath it (or
/// the base). Refused, with nothing touched, when there is no checkpoint.
pub fn undo_last_transaction<B: SimulationBackend>(backend: &B, layers: &mut LayerStack) -> (r: Result<
    RollbackOutcome,
    NoRecoverableCheckpoint,
>)
    ensures
        ({
            let ids = checkpoint_ids(*old(layers));
            &&& ids.len() == 0 ==> r == Err::<RollbackOutcome, NoRecoverableCheckpoint>(NoRecoverableCheckpoint)
                && *final(layers) == *old(layers)
            &&& ids.len() == 1 ==> (r matches Ok(o) && o.restored_checkpoint_id is None)
            &&& ids.len() >= 2 ==> (r matches Ok(o) && o.restored_checkpoint_id == Some(ids[ids.len() - 2]))
            &&& r matches Ok(o) ==> (o.success <==> o.failure_detail is None)
            &&& r matches Ok(o) ==> (o.success ==> restored_to(*old(layers), *final(layers), o.restored_checkpoint_id))
            &&& r matches Ok(o) ==> (o.success && distinct_ids(ids) ==> final(layers).checkpoints@
                == old(layers).checkpoints@.drop_last())
        }),
{
    let ids = ids_of(layers);
    let ghost before = *layers;
    match undo_last_transaction_target(ids.as_slice()) {
        Err(e) => Err(e),
        Ok(target) => {
            let o = restore_then_verify(backend, layers, target);
            proof {
                let cs = checkpoint_ids(before);
                if distinct_ids(cs) && cs.len() >= 2 {
                    lemma_restore_keeps_through_target(cs, cs.len() - 2);
                }
                assert(before.checkpoints@.take(before.checkpoints@.len() - 1) =~= before.checkpoints@.drop_last());
            }
            Ok(o)
        },
    }
}

/// The first recovery action of a quarantined session: back to its newest
/// retained checkpoint (the same restore as an automatic rollback).
pub fn quarantine_recovery_restore_to_newest<B: SimulationBackend>(backend: &B, layers: &mut LayerStack) -> (r:
    RollbackOutcome)
    ensures
        newest_restore(*old(layers), *final(layers), r),
        distinct_ids(checkpoint_ids(*old(layers))) && r.success ==> final(layers).checkpoints@
            == old(layers).checkpoints@,
{
    automatic_rollback(backend, layers)
}

/// The second recovery action of a quarantined session: back to the
/// consolidated base.
pub fn quarantine_recovery_reset_to_base<B: SimulationBackend>(backend: &B, layers: &mut LayerStack) -> (r:
    RollbackOutcome)
    ensures
        r.restored_checkpoint_id is None,
        r.success <==> r.failure_detail is None,
        r.success ==> restored_to(*old(layers), *final(layers), None),
        r.success ==> final(layers).checkpoints@.len() == 0,
{
    restore_then_verify(backend, layers, None)
}

/// A restore to a checkpoint the user chose from the session's history
/// (the caller has checked that it is retained there).
pub fn restore_to_checkpoint<B: SimulationBackend>(backend: &B, layers: &mut LayerStack, checkpoint_id: CheckpointId) -> (r:
    RollbackOutcome)
    ensures
        r.restored_checkpoint_id == Some(checkpoint_id),
        r.success <==> r.failure_detail is None,
        r.success ==> restored_to(*old(layers), *final(layers), Some(checkpoint_id)),
        forall|k: int|
            0 <= k < checkpoint_ids(*old(layers)).len() && distinct_ids(checkpoint_ids(*old(layers)))
                && #[trigger] checkpoint_ids(*old(layers))[k] == checkpoint_id && r.success
                ==> final(layers).checkpoints@ == old(layers).checkpoints@.take(k + 1),
{
    let ghost before = *layers;
    let r = restore_then_verify(backend, layers, Some(checkpoint_id));
    proof {
        assert forall|k: int|
            0 <= k < checkpoint_ids(before).len() && distinct_ids(checkpoint_ids(before))
                && #[trigger] checkpoint_ids(before)[k] == checkpoint_id && r.success
                implies layers.checkpoints@ == before.checkpoints@.take(k + 1) by {
            lemma_restore_keeps_through_target(checkpoint_ids(before), k);
        }
    }
    r
}

/// Where undoing lands for a stack holding `ids`: the checkpoint beneath
/// the newest, or the base when the newest is the only one.
pub open spec fn undo_target(ids: Seq<CheckpointId>) -> Option<CheckpointId> {
    if ids.len() >= 2 {
        Some(ids[ids.len() - 2])
    } else {
        None
    }
}

/// Undo is strictly last in, first out: over distinct checkpoints, each
/// successful undo on a stack of `m` checkpoints keeps exactly the oldest
/// `m - 1`, which are still distinct; so `n` undos empty a stack of `n`,
/// and the next one is refused (an empty stack has nothing to undo).
pub proof fn lemma_undo_is_lifo(ids: Seq<CheckpointId>, m: int)
    requires
        distinct_ids(ids),
        1 <= m <= ids.len(),
    ensures
        kept_count(ids.take(m), undo_target(ids.take(m))) == Some(m - 1),
        distinct_ids(ids.take(m - 1)),
{
    let s = ids.take(m);
    assert(distinct_ids(s));
    if m >= 2 {
        lemma_restore_keeps_through_target(s, m - 2);
    }
}

/// Restoring a quarantined session to its newest checkpoint is the
/// automatic rollback: whenever both succeed from the same stack, they
/// name the same checkpoint and leave the same checkpoints, the base and
/// the write layer's place as they were.
pub proof fn lemma_quarantine_restore_is_automatic_rollback(
    before: LayerStack,
    after_quarantine: LayerStack,
    rq: RollbackOutcome,
    after_automatic: LayerStack,
    ra: RollbackOutcome,
)
    requires
        newest_restore(before, after_quarantine, rq),
        newest_restore(before, after_automatic, ra),
        rq.success,
        ra.success,
    ensures
        rq.restored_checkpoint_id == ra.restored_checkpoint_id,
        rq.failure_detail is None && ra.failure_detail is None,
        after_quarantine.checkpoints@ == after_automatic.checkpoints@,
        after_quarantine.base == after_automatic.base,
        after_quarantine.active_write == after_automatic.active_write,
{
}

} // verus!
