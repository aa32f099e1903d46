use safeshell::audit::{compute_content_hash, next_content_hash, verify_audit_chain, GENESIS_HASH};

const FIRST: &str = "015abd7f5cc57a2dd94b7590f04ad8084273905ee33ec5cebeae62276a97f862";
const SECOND: &str = "63ecf0689863ad6c5791d13a108b7840d265d5fe6500ab2d575b19f77a56b311";

fn row(payload: &str, hash: &str) -> (String, String) {
    (payload.to_string(), hash.to_string())
}

#[test]
fn first_row_chains_from_the_empty_genesis_hash() {
    assert_eq!(compute_content_hash(r#"{"a":1}"#, ""), FIRST);
    assert_eq!(next_content_hash(None, r#"{"a":1}"#), FIRST);
}

#[test]
fn later_rows_chain_from_the_newest_hash() {
    assert_eq!(compute_content_hash(r#"{"b":2}"#, FIRST), SECOND);
    assert_eq!(next_content_hash(Some(FIRST.to_string()), r#"{"b":2}"#), SECOND);
    assert_ne!(next_content_hash(None, r#"{"b":2}"#), SECOND);
}

#[test]
fn an_intact_chain_verifies() {
    assert!(verify_audit_chain(&[row(r#"{"a":1}"#, FIRST), row(r#"{"b":2}"#, SECOND)]));
}

#[test]
fn an_empty_log_verifies() {
    assert!(verify_audit_chain(&[]));
}

#[test]
fn a_tampered_payload_breaks_the_chain() {
    assert!(!verify_audit_chain(&[row("tampered", FIRST), row(r#"{"b":2}"#, SECOND)]));
}

#[test]
fn a_tampered_hash_breaks_the_chain() {
    assert!(!verify_audit_chain(&[row(r#"{"a":1}"#, FIRST), row(r#"{"b":2}"#, FIRST)]));
}

#[test]
fn rows_out_of_order_break_the_chain() {
    assert!(!verify_audit_chain(&[row(r#"{"b":2}"#, SECOND), row(r#"{"a":1}"#, FIRST)]));
}

/// An audit log held in memory: each insert stores the payload with the
/// hash chained from the newest stored row, as the database insert does.
struct AuditLog {
    rows: Vec<(String, String)>,
}

impl AuditLog {
    fn new() -> Self {
        AuditLog { rows: vec![] }
    }

    fn insert(&mut self, payload: &str) -> String {
        let latest = self.rows.last().map(|(_, h)| h.clone());
        let hash = next_content_hash(latest, payload);
        self.rows.push((payload.to_string(), hash.clone()));
        hash
    }

    fn verify(&self) -> bool {
        verify_audit_chain(&self.rows)
    }
}

#[test]
fn first_row_chains_from_the_genesis_hash() {
    let mut db = AuditLog::new();
    let hash = db.insert(r#"{"a":1}"#);
    assert_eq!(hash, compute_content_hash(r#"{"a":1}"#, GENESIS_HASH));
}

#[test]
fn each_row_chains_to_the_previous_rows_hash() {
    let mut db = AuditLog::new();
    let hash1 = db.insert("payload_a");
    let hash2 = db.insert("payload_b");
    assert_eq!(hash2, compute_content_hash("payload_b", &hash1));
    assert_ne!(hash1, hash2);
}

#[test]
fn verify_chain_integrity_passes_on_an_untampered_chain() {
    let mut db = AuditLog::new();
    db.insert("payload_a");
    db.insert("payload_b");
    db.insert("payload_c");
    assert!(db.verify());
}

#[test]
fn verify_chain_integrity_detects_a_tampered_payload() {
    let mut db = AuditLog::new();
    db.insert("payload_a");
    db.insert("payload_b");
    db.rows[0].0 = "tampered".to_string();
    assert!(!db.verify());
}

#[test]
fn verify_chain_integrity_is_trivially_true_for_an_empty_log() {
    let db = AuditLog::new();
    assert!(db.verify());
}
