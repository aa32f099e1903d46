//! The tamper-evident audit log: every row carries a content hash that
//! covers its payload and the hash of the row before it, so that changing
//! any stored payload or hash breaks the chain from that row on.

use vstd::prelude::*;
use crate::simulation::diff::{hex_lower, hex_sha256, sha256_digest};
use crate::text::str_eq;

verus! {

/// The hash the first row chains from.
pub const GENESIS_HASH: &'static str = "";

/// The content hash of one row: the SHA-256, in lower-case hexadecimal, of
/// the row's payload followed by the previous row's hash, both as UTF-8.
pub open spec fn content_hash_of(payload: Seq<char>, previous: Seq<char>) -> Seq<char> {
    hex_lower(sha256_digest(vstd::utf8::encode_utf8(payload) + vstd::utf8::encode_utf8(previous)))
}

/// The hash that the row at `i` chains from: the empty genesis hash for the
/// first row, the hash stored in the row before it otherwise. At
/// `rows.len()` it is the hash that the next appended row chains from.
pub open spec fn previous_hash_at(rows: Seq<(String, String)>, i: int) -> Seq<char> {
    if i <= 0 {
        Seq::empty()
    } else {
        rows[i - 1].1@
    }
}

/// Whether every row, as `(payload, stored hash)` in insertion order,
/// stores exactly the content hash of its payload over the hash before it.
pub open spec fn audit_chain_valid(rows: Seq<(String, String)>) -> bool {
    forall|i: int|
        0 <= i < rows.len() ==> (#[trigger] rows[i]).1@ == content_hash_of(
            rows[i].0@,
            previous_hash_at(rows, i),
        )
}

/// Appends the UTF-8 bytes of `s` to `out`.
fn push_utf8(out: &mut Vec<u8>, s: &str)
    ensures
        final(out)@ == old(out)@ + vstd::utf8::encode_utf8(s@),
{
    let bytes = s.as_bytes();
    let ghost start = out@;
    let mut i: usize = 0;
    while i < bytes.len()
        invariant
            0 <= i <= bytes@.len(),
            bytes@ == vstd::utf8::encode_utf8(s@),
            out@ == start + bytes@.take(i as int),
        decreases bytes.len() - i,
    {
        out.push(bytes[i]);
        i += 1;
        assert(out@ =~= start + bytes@.take(i as int));
    }
    assert(bytes@.take(i as int) =~= bytes@);
}

/// The content hash of a row with `payload_json` chained after
/// `previous_hash`.
pub fn compute_content_hash(payload_json: &str, previous_hash: &str) -> (s: String)
    ensures
        s@ == content_hash_of(payload_json@, previous_hash@),
{
    let mut bytes: Vec<u8> = Vec::new();
    push_utf8(&mut bytes, payload_json);
    push_utf8(&mut bytes, previous_hash);
    assert(bytes@ =~= vstd::utf8::encode_utf8(payload_json@) + vstd::utf8::encode_utf8(previous_hash@));
    hex_sha256(bytes.as_slice())
}

/// The hash a new row with `payload_json` gets, given the hash of the
/// newest row already stored (none when the log is empty).
pub fn next_content_hash(latest_hash: Option<String>, payload_json: &str) -> (s: String)
    ensures
        s@ == content_hash_of(
            payload_json@,
            match latest_hash {
                Some(h) => h@,
                None => Seq::empty(),
            },
        ),
{
    let previous = match latest_hash {
        Some(h) => h,
        None => String::new(),
    };
    compute_content_hash(payload_json, previous.as_str())
}

/// Checks the whole log, rows in insertion order: true exactly when every
/// row stores the content hash of its payload over the hash before it.
pub fn verify_audit_chain(rows: &[(String, String)]) -> (ok: bool)
    ensures
        ok == audit_chain_valid(rows@),
{
    let mut expected_previous = String::new();
    let mut i: usize = 0;
    while i < rows.len()
        invariant
            0 <= i <= rows@.len(),
            expected_previous@ == previous_hash_at(rows@, i as int),
            forall|j: int|
                0 <= j < i ==> (#[trigger] rows@[j]).1@ == content_hash_of(
                    rows@[j].0@,
                    previous_hash_at(rows@, j),
                ),
        decreases rows.len() - i,
    {
        let row = &rows[i];
        let expected = compute_content_hash(row.0.as_str(), expected_previous.as_str());
        if !str_eq(expected.as_str(), row.1.as_str()) {
            assert(!(rows@[i as int].1@ == content_hash_of(rows@[i as int].0@, previous_hash_at(rows@, i as int))));
            return false;
        }
        expected_previous = row.1.clone();
        i += 1;
    }
    true
}

/// An empty log is a valid chain, and appending a row whose hash is the
/// content hash of its payload over the newest stored hash keeps the chain
/// valid: the log that inserts build always verifies.
pub proof fn lemma_append_keeps_audit_chain_valid(rows: Seq<(String, String)>, row: (String, String))
    requires
        audit_chain_valid(rows),
        row.1@ == content_hash_of(row.0@, previous_hash_at(rows, rows.len() as int)),
    ensures
        audit_chain_valid(Seq::<(String, String)>::empty()),
        audit_chain_valid(rows.push(row)),
{
    let longer = rows.push(row);
    assert forall|i: int| 0 <= i < longer.len() implies (#[trigger] longer[i]).1@ == content_hash_of(
        longer[i].0@,
        previous_hash_at(longer, i),
    ) by {
        if i < rows.len() {
            assert(longer[i] == rows[i]);
            assert(previous_hash_at(longer, i) == previous_hash_at(rows, i));
        }
    }
}

} // verus!
