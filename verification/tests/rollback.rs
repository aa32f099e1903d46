use safeshell::rollback::{
    automatic_rollback_target, check_active_write_empty, is_retained, parse_checkpoint_id,
    restore_and_verify, undo_last_transaction_target, CheckpointId, NoRecoverableCheckpoint,
};

#[test]
fn recovery_targets() {
    let a = CheckpointId(1);
    let b = CheckpointId(2);
    assert_eq!(automatic_rollback_target(&[]), None);
    assert_eq!(automatic_rollback_target(&[a, b]), Some(b));
    assert_eq!(undo_last_transaction_target(&[]), Err(NoRecoverableCheckpoint));
    assert_eq!(undo_last_transaction_target(&[a]), Ok(None));
    assert_eq!(undo_last_transaction_target(&[a, b]), Ok(Some(a)));
    assert!(is_retained(&[a, b], b));
    assert!(!is_retained(&[a], b));
}

#[test]
fn restore_outcomes() {
    let t = Some(CheckpointId(7));
    let ok = restore_and_verify(t, Ok(()), Ok(()));
    assert!(ok.success);
    assert_eq!(ok.restored_checkpoint_id, t);
    assert_eq!(ok.failure_detail, None);
    let failed = restore_and_verify(t, Err("io".into()), Ok(()));
    assert!(!failed.success);
    assert_eq!(failed.failure_detail, Some("io".to_string()));
    let dirty = restore_and_verify(None, Ok(()), Err("active write layer is not empty after restore".into()));
    assert!(!dirty.success);
    assert_eq!(dirty.restored_checkpoint_id, None);
    assert_eq!(
        check_active_write_empty(true, "/w", Ok(true)),
        Err("active write layer is not empty after restore".to_string())
    );
    assert_eq!(
        check_active_write_empty(false, "/w", Ok(false)),
        Err("active write layer missing after restore: /w".to_string())
    );
    assert_eq!(check_active_write_empty(true, "/w", Ok(false)), Ok(()));
}

#[test]
fn checkpoint_ids_parse_from_their_ulid_text() {
    assert_eq!(
        parse_checkpoint_id("ckpt_21850M2GA1850M2GA1850M2GA1"),
        Some(CheckpointId(0x41414141414141414141414141414141))
    );
    assert_eq!(parse_checkpoint_id("21850M2GA1850M2GA1850M2GA1"), None);
    assert_eq!(parse_checkpoint_id("ckpt_not-a-ulid"), None);
}

#[test]
fn checkpoint_names_read_back_as_the_same_checkpoint() {
    let ids = [0u128, 1, 31, 32, 0x41414141414141414141414141414141, u128::MAX, 1 << 127];
    for v in ids {
        let id = CheckpointId(v);
        let name = id.display();
        assert_eq!(name.len(), 31);
        assert_eq!(parse_checkpoint_id(&name), Some(id));
    }
    assert_eq!(CheckpointId(0).display(), "ckpt_00000000000000000000000000");
    assert_eq!(CheckpointId(u128::MAX).display(), "ckpt_7ZZZZZZZZZZZZZZZZZZZZZZZZZ");
}

#[test]
fn checkpoint_names_read_either_case_and_nothing_else() {
    assert_eq!(
        parse_checkpoint_id("ckpt_21850m2ga1850m2ga1850m2ga1"),
        Some(CheckpointId(0x41414141414141414141414141414141))
    );
    assert_eq!(parse_checkpoint_id("ckpt_0000000000000000000000000I"), None);
    assert_eq!(parse_checkpoint_id("ckpt_0000000000000000000000000"), None);
    assert_eq!(parse_checkpoint_id("ckpt_000000000000000000000000000"), None);
    assert_eq!(parse_checkpoint_id("ckpt_0000000000000000000000000\u{e9}"), None);
    assert_eq!(parse_checkpoint_id("ckpt_0000000000000000000000001Z"), Some(CheckpointId(63)));
}

use safeshell::rollback::{
    automatic_rollback, quarantine_recovery_reset_to_base, quarantine_recovery_restore_to_newest,
    restore_to_checkpoint, undo_last_transaction, LayerStack, SimulationBackend,
};
use std::cell::RefCell;
use std::path::PathBuf;

/// A backend over a stack whose layers are remembered in memory: a restore
/// keeps the checkpoints up to the target and empties the write layer.
struct MemBackend {
    write_layer_entries: RefCell<usize>,
}

impl MemBackend {
    fn new() -> Self {
        MemBackend { write_layer_entries: RefCell::new(0) }
    }

    fn write(&self) {
        *self.write_layer_entries.borrow_mut() += 1;
    }

    fn seal(&self, stack: &mut LayerStack, id: u128) -> CheckpointId {
        let id = CheckpointId(id);
        stack.checkpoints.push((id, PathBuf::from(format!("/layers/{}", id.0))));
        *self.write_layer_entries.borrow_mut() = 0;
        id
    }
}

impl SimulationBackend for MemBackend {
    fn restore_to(&self, layers: &mut LayerStack, target: Option<CheckpointId>) -> Result<(), String> {
        let keep = match target {
            None => 0,
            Some(t) => match layers.checkpoints.iter().position(|(id, _)| *id == t) {
                Some(i) => i + 1,
                None => return Err(format!("unknown checkpoint {}", t.display())),
            },
        };
        layers.checkpoints.truncate(keep);
        *self.write_layer_entries.borrow_mut() = 0;
        Ok(())
    }

    fn active_write_directory(&self, layers: &LayerStack) -> (bool, String) {
        (true, layers.active_write.display().to_string())
    }

    fn active_write_has_entries(&self, _layers: &LayerStack) -> Result<bool, String> {
        Ok(*self.write_layer_entries.borrow() > 0)
    }
}

fn fresh_stack() -> (MemBackend, LayerStack) {
    (
        MemBackend::new(),
        LayerStack { base: PathBuf::from("/base"), checkpoints: Vec::new(), active_write: PathBuf::from("/write") },
    )
}

#[test]
fn automatic_rollback_discards_only_the_active_write_layer() {
    let (backend, mut stack) = fresh_stack();
    backend.write();
    let checkpoint_id = backend.seal(&mut stack, 1);
    backend.write();
    let outcome = automatic_rollback(&backend, &mut stack);
    assert!(outcome.success);
    assert_eq!(outcome.restored_checkpoint_id, Some(checkpoint_id));
    assert_eq!(stack.checkpoints.len(), 1, "the checkpoint itself must survive automatic rollback");
    assert_eq!(*backend.write_layer_entries.borrow(), 0);
}

#[test]
fn undo_last_transaction_removes_the_newest_checkpoint_and_lands_on_the_one_beneath() {
    let (backend, mut stack) = fresh_stack();
    let id1 = backend.seal(&mut stack, 1);
    backend.seal(&mut stack, 2);
    let outcome = undo_last_transaction(&backend, &mut stack).unwrap();
    assert!(outcome.success);
    assert_eq!(outcome.restored_checkpoint_id, Some(id1));
    assert_eq!(stack.checkpoints, vec![(id1, PathBuf::from("/layers/1"))]);
}

#[test]
fn undo_last_transaction_with_only_one_checkpoint_lands_on_base() {
    let (backend, mut stack) = fresh_stack();
    backend.seal(&mut stack, 1);
    let outcome = undo_last_transaction(&backend, &mut stack).unwrap();
    assert!(outcome.success);
    assert_eq!(outcome.restored_checkpoint_id, None);
    assert!(stack.checkpoints.is_empty());
}

#[test]
fn undo_last_transaction_with_no_checkpoints_reports_no_recoverable_checkpoint() {
    let (backend, mut stack) = fresh_stack();
    assert_eq!(undo_last_transaction(&backend, &mut stack), Err(NoRecoverableCheckpoint));
}

#[test]
fn undo_last_transaction_is_strictly_lifo_across_repeated_calls() {
    let (backend, mut stack) = fresh_stack();
    for i in 0..3 {
        backend.seal(&mut stack, i);
    }
    assert_eq!(stack.checkpoints.len(), 3);
    undo_last_transaction(&backend, &mut stack).unwrap();
    assert_eq!(stack.checkpoints.len(), 2);
    undo_last_transaction(&backend, &mut stack).unwrap();
    assert_eq!(stack.checkpoints.len(), 1);
    undo_last_transaction(&backend, &mut stack).unwrap();
    assert_eq!(stack.checkpoints.len(), 0);
    assert_eq!(undo_last_transaction(&backend, &mut stack), Err(NoRecoverableCheckpoint));
}

#[test]
fn quarantine_recovery_reset_to_base_discards_every_checkpoint() {
    let (backend, mut stack) = fresh_stack();
    for i in 0..3 {
        backend.seal(&mut stack, i);
    }
    let outcome = quarantine_recovery_reset_to_base(&backend, &mut stack);
    assert!(outcome.success);
    assert_eq!(outcome.restored_checkpoint_id, None);
    assert!(stack.checkpoints.is_empty());
}

#[test]
fn quarantine_recovery_restore_to_newest_matches_automatic_rollback() {
    let (backend, mut stack) = fresh_stack();
    let id1 = backend.seal(&mut stack, 1);
    let outcome = quarantine_recovery_restore_to_newest(&backend, &mut stack);
    assert!(outcome.success);
    assert_eq!(outcome.restored_checkpoint_id, Some(id1));
}

#[test]
fn restore_to_checkpoint_restores_an_arbitrary_retained_checkpoint() {
    let (backend, mut stack) = fresh_stack();
    let id1 = backend.seal(&mut stack, 1);
    backend.seal(&mut stack, 2);
    let outcome = restore_to_checkpoint(&backend, &mut stack, id1);
    assert!(outcome.success);
    assert_eq!(outcome.restored_checkpoint_id, Some(id1));
    assert_eq!(stack.checkpoints, vec![(id1, PathBuf::from("/layers/1"))]);
}

#[test]
fn a_failed_restore_reports_failure_not_a_panic() {
    let (backend, mut stack) = fresh_stack();
    backend.seal(&mut stack, 1);
    let outcome = restore_to_checkpoint(&backend, &mut stack, CheckpointId(99));
    assert!(!outcome.success);
    assert!(outcome.failure_detail.is_some());
}

/// A backend whose restore leaves the write layer dirty.
struct DirtyBackend;

impl SimulationBackend for DirtyBackend {
    fn restore_to(&self, _layers: &mut LayerStack, _target: Option<CheckpointId>) -> Result<(), String> {
        Ok(())
    }
    fn active_write_directory(&self, _layers: &LayerStack) -> (bool, String) {
        (true, "/write".to_string())
    }
    fn active_write_has_entries(&self, _layers: &LayerStack) -> Result<bool, String> {
        Ok(true)
    }
}

#[test]
fn a_restore_that_leaves_the_write_layer_dirty_is_a_failure() {
    let (_b, mut stack) = fresh_stack();
    let outcome = automatic_rollback(&DirtyBackend, &mut stack);
    assert!(!outcome.success);
    assert_eq!(outcome.failure_detail, Some("active write layer is not empty after restore".to_string()));
}
