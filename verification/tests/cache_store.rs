use collect_diff_context::cache::{
    file_fact_digest, repository_id, CacheLayout, CacheLookup, FileFactsEnvelope, FileFactsStore,
    PublishResult,
};
use collect_diff_context::contracts::ParseQuality;
use collect_diff_context::integrity::payload_digest;
use collect_diff_context::model::FileFactKey;
use collect_diff_context::rust_syntax::{RustFileFactMetrics, RustFileFacts};
use sha2::{Digest, Sha256};

fn layout() -> CacheLayout {
    CacheLayout::for_repository("/cache", "abc")
}

fn key() -> FileFactKey {
    FileFactKey {
        language: "rust".to_string(),
        content_sha256: "a".repeat(64),
        grammar_version: "tree-sitter-rust@0.24.2".to_string(),
        query_digest: "b".repeat(64),
        adapter_version: "tree-sitter-rust-index/v1".to_string(),
        normalization_rules_digest: "c".repeat(64),
        schema_version: 1,
    }
}

fn empty_facts() -> RustFileFacts {
    RustFileFacts {
        parse_quality: ParseQuality::Clean,
        symbols: Vec::new(),
        imports: Vec::new(),
        references: Vec::new(),
        calls: Vec::new(),
        module_declarations: Vec::new(),
        attributes: Vec::new(),
        recovery_ranges: Vec::new(),
        limitations: Vec::new(),
        metrics: RustFileFactMetrics {
            nodes_visited: 1,
            max_nesting_depth: 1,
            facts_emitted: 0,
            source_bytes: 0,
        },
    }
}

fn envelope(payload: &[u8]) -> FileFactsEnvelope {
    FileFactsEnvelope {
        magic: "pre-commit-review-file-facts".to_string(),
        schema_version: 1,
        key: key(),
        payload_length: payload.len(),
        payload_sha256: payload_digest(payload),
        payload: empty_facts(),
    }
}

#[test]
fn layout_directories_follow_the_repository_root() {
    let l = layout();
    assert_eq!(l.facts_dir, "/cache/v2/repos/abc/facts");
    assert_eq!(l.graphs_dir, "/cache/v2/repos/abc/graphs");
    assert_eq!(l.staging_dir, "/cache/v2/repos/abc/staging");
    assert_eq!(l.locks_dir, "/cache/v2/repos/abc/locks");
    assert_eq!(l.quarantine_dir, "/cache/v2/repos/abc/quarantine");
}

#[test]
fn repository_id_hashes_the_identity() {
    let identity = b"/repo/.git";
    let mut message = b"pre-commit-review-repository-cache/v2".to_vec();
    message.extend_from_slice(&(identity.len() as u64).to_be_bytes());
    message.extend_from_slice(identity);
    let expected: String = Sha256::digest(&message).iter().map(|b| format!("{b:02x}")).collect();
    assert_eq!(repository_id(identity), expected);
}

#[test]
fn zero_object_limit_is_refused() {
    let error = FileFactsStore::new(layout(), 0).unwrap_err();
    assert_eq!(error.code, "cache-object-limit-invalid");
}

#[test]
fn object_limit_is_capped() {
    let store = FileFactsStore::new(layout(), usize::MAX).unwrap();
    assert_eq!(store.maximum_object_bytes(), 16 * 1024 * 1024);
    let small = FileFactsStore::new(layout(), 10).unwrap();
    assert_eq!(small.maximum_object_bytes(), 10);
    assert!(small.fits(10));
    assert!(!small.fits(11));
}

#[test]
fn object_path_is_sharded_by_digest() {
    let store = FileFactsStore::new(layout(), 1000).unwrap();
    let digest = file_fact_digest(&key()).unwrap();
    let expected = format!("/cache/v2/repos/abc/facts/sha256/{}/{}.facts", &digest[..2], digest);
    assert_eq!(store.object_path(&key()).unwrap(), expected);
    let mut bad = key();
    bad.language = String::new();
    assert_eq!(store.object_path(&bad).unwrap_err().code, "file-facts-key-invalid");
}

#[test]
fn object_inspection_codes() {
    let store = FileFactsStore::new(layout(), 100).unwrap();
    assert_eq!(store.inspect_object(true, 100), None);
    assert_eq!(
        store.inspect_object(false, 1),
        Some(CacheLookup::Corrupt { code: "file-facts-object-not-regular".to_string() })
    );
    assert_eq!(
        store.inspect_object(true, 101),
        Some(CacheLookup::Corrupt { code: "file-facts-object-too-large".to_string() })
    );
}

#[test]
fn written_envelope_reads_back_as_hit() {
    let store = FileFactsStore::new(layout(), 1000).unwrap();
    let payload = b"{\"payload\":true}".to_vec();
    let verdict = store.accept_envelope(&key(), envelope(&payload), Some(payload.clone()));
    assert_eq!(verdict, CacheLookup::Hit(empty_facts()));
}

#[test]
fn envelope_verdict_codes() {
    let store = FileFactsStore::new(layout(), 1000).unwrap();
    let payload = b"{}".to_vec();
    let mut wrong_magic = envelope(&payload);
    wrong_magic.magic = "other".to_string();
    assert_eq!(
        store.accept_envelope(&key(), wrong_magic, Some(payload.clone())),
        CacheLookup::Corrupt { code: "file-facts-magic-mismatch".to_string() }
    );
    let mut wrong_schema = envelope(&payload);
    wrong_schema.schema_version = 2;
    assert_eq!(
        store.accept_envelope(&key(), wrong_schema, Some(payload.clone())),
        CacheLookup::Corrupt { code: "file-facts-schema-unsupported".to_string() }
    );
    let mut other_key = key();
    other_key.content_sha256 = "d".repeat(64);
    assert_eq!(
        store.accept_envelope(&other_key, envelope(&payload), Some(payload.clone())),
        CacheLookup::Stale { code: "file-facts-key-mismatch".to_string() }
    );
    assert_eq!(
        store.accept_envelope(&key(), envelope(&payload), None),
        CacheLookup::Corrupt { code: "file-facts-payload-invalid".to_string() }
    );
    let mut wrong_length = envelope(&payload);
    wrong_length.payload_length = 3;
    assert_eq!(
        store.accept_envelope(&key(), wrong_length, Some(payload.clone())),
        CacheLookup::Corrupt { code: "file-facts-payload-length-mismatch".to_string() }
    );
    let mut wrong_sum = envelope(&payload);
    wrong_sum.payload_sha256 = "0".repeat(64);
    assert_eq!(
        store.accept_envelope(&key(), wrong_sum, Some(payload.clone())),
        CacheLookup::Corrupt { code: "file-facts-payload-checksum-mismatch".to_string() }
    );
    let small = FileFactsStore::new(layout(), 1).unwrap();
    assert_eq!(
        small.accept_envelope(&key(), envelope(&payload), Some(payload.clone())),
        CacheLookup::Corrupt { code: "file-facts-payload-too-large".to_string() }
    );
}

#[test]
fn publish_reuses_equal_and_refuses_different_objects() {
    let facts = empty_facts();
    assert_eq!(
        FileFactsStore::publish_decision(&CacheLookup::Hit(facts.clone()), &facts),
        Ok(Some(PublishResult::Reused))
    );
    assert_eq!(FileFactsStore::publish_decision(&CacheLookup::Miss, &facts), Ok(None));
    let mut other = facts.clone();
    other.limitations = vec!["x".to_string()];
    assert_eq!(
        FileFactsStore::publish_decision(&CacheLookup::Hit(other), &facts).unwrap_err().code,
        "file-facts-object-conflict"
    );
    assert_eq!(
        FileFactsStore::publish_decision(&CacheLookup::Stale { code: "s".to_string() }, &facts)
            .unwrap_err()
            .code,
        "file-facts-object-conflict"
    );
}

#[test]
fn prepare_publish_canonicalizes_and_checks() {
    let store = FileFactsStore::new(layout(), 1000).unwrap();
    let mut facts = empty_facts();
    facts.limitations = vec!["b".to_string(), "a".to_string(), "b".to_string()];
    let prepared = store.prepare_publish(&key(), facts).unwrap();
    assert_eq!(prepared.limitations, vec!["a".to_string(), "b".to_string()]);
    let mut bad_key = key();
    bad_key.schema_version = 0;
    let _ = store.prepare_publish(&bad_key, empty_facts());
    let mut bad_facts = empty_facts();
    bad_facts.metrics.facts_emitted = 3;
    assert_eq!(
        store.prepare_publish(&key(), bad_facts).unwrap_err().code,
        "file-facts-payload-invalid"
    );
}
