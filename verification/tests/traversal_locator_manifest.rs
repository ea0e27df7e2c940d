use collect_diff_context::cache::{CacheLayout, CacheLookup, PublishResult};
use collect_diff_context::candidate::{CandidatePresence, RepoPath};
use collect_diff_context::contracts::{Completeness, Confidence, EdgeKind, Resolution, SourceRange, UnitStatus};
use collect_diff_context::graph::GraphEdge;
use collect_diff_context::index_budget::{IndexBudget, IndexBudgetTracker};
use collect_diff_context::integrity::payload_digest;
use collect_diff_context::locator::{
    check_publish, combine_publish, lookup_digest, lookup_matches_locator, order_candidates,
    publish_lookups, settle_lookup, GenerationCompatibility, GenerationLocatorStore,
    GenerationLookup, GenerationReference, GenerationReferenceEnvelope,
};
use collect_diff_context::manifest::{
    digest_index_records, language_for_path, manifest_completeness, parse_git_records,
    select_records, split_words,
};
use collect_diff_context::model::{GraphGenerationIdentity, IndexLimitation, RepositoryLocator};
use collect_diff_context::review_scope::ReviewSource;
use collect_diff_context::traversal::{
    candidate_is_preferred, canonicalize_limitations, consider_neighbor, full_read_code, neighbor,
    output_budget_code, plan_base_read, validate_request, NeighborOutcome, NodeText, RowPlan,
    TraversalDirection, TraversalRequest,
};
use sha2::{Digest, Sha256};
use std::time::Duration;

fn h(c: char) -> String {
    c.to_string().repeat(64)
}

fn edge(to: Option<&str>) -> GraphEdge {
    GraphEdge {
        edge_id: h('e'),
        kind: EdgeKind::Calls,
        from_symbol: h('a'),
        to_symbol: to.map(str::to_string),
        unresolved_target: if to.is_none() { Some("x".to_string()) } else { None },
        path: RepoPath::new("src/lib.rs".to_string()).unwrap(),
        range: SourceRange { start_line: 1, start_column: 1, end_line: 1, end_column: 1, start_byte: 0, end_byte: 0 },
        provider_id: "p".to_string(),
        provider_version: "v".to_string(),
        resolution: Resolution::Lexical,
        confidence: Confidence::Low,
        limitation_code: None,
    }
}

#[test]
fn traversal_roots_must_be_symbol_ids() {
    let mut request = TraversalRequest {
        roots: vec![h('a')],
        directions: vec![TraversalDirection::Incoming],
        edge_kinds: vec![EdgeKind::Calls],
        maximum_depth: 2,
        maximum_rows: 10,
        maximum_nodes: 10,
        maximum_edges: 10,
        maximum_bytes: 100,
        deadline: Duration::from_secs(1),
    };
    assert!(validate_request(&request).is_ok());
    request.roots.push("ABC".to_string());
    assert_eq!(validate_request(&request).unwrap_err().code, "traversal-root-invalid");
}

#[test]
fn neighbors_follow_direction() {
    assert_eq!(neighbor(TraversalDirection::Incoming, &edge(None)), Some(h('a')));
    assert_eq!(neighbor(TraversalDirection::Outgoing, &edge(None)), None);
    assert_eq!(neighbor(TraversalDirection::Outgoing, &edge(Some("t"))), Some("t".to_string()));
}

#[test]
fn preferred_copy_of_an_edge() {
    assert!(candidate_is_preferred(Confidence::High, Confidence::Low, b"z", b"a"));
    assert!(!candidate_is_preferred(Confidence::Low, Confidence::Medium, b"a", b"z"));
    assert!(candidate_is_preferred(Confidence::Low, Confidence::Low, b"ab", b"b"));
    assert!(candidate_is_preferred(Confidence::Low, Confidence::Low, b"a", b"ab"));
    assert!(!candidate_is_preferred(Confidence::Low, Confidence::Low, b"ab", b"ab"));
}

#[test]
fn row_budget_plans() {
    assert!(matches!(plan_base_read(10, 10, 5), RowPlan::Exhausted));
    assert!(matches!(plan_base_read(10, 7, 5), RowPlan::Read(3)));
    assert!(matches!(plan_base_read(10, 0, 5), RowPlan::Read(5)));
    assert_eq!(full_read_code(3, 3, 3), Some("index-query-row-budget-exhausted"));
    assert_eq!(full_read_code(5, 5, 8), Some("index-query-row-limit-reached"));
    assert_eq!(full_read_code(2, 5, 8), None);
    assert_eq!(output_budget_code(1, 2, 10, 5, 20), None);
    assert_eq!(output_budget_code(2, 2, 10, 5, 20), Some("index-edge-budget-exhausted"));
    assert_eq!(output_budget_code(1, 2, 18, 5, 20), Some("index-output-byte-budget-exhausted"));
}

#[test]
fn neighbors_respect_the_node_budget() {
    let mut seen: Vec<NodeText> = Vec::new();
    assert_eq!(consider_neighbor(&mut seen, "b".to_string(), 2), NeighborOutcome::Added);
    assert_eq!(consider_neighbor(&mut seen, "a".to_string(), 2), NeighborOutcome::Added);
    assert_eq!(consider_neighbor(&mut seen, "a".to_string(), 2), NeighborOutcome::AlreadySeen);
    assert_eq!(consider_neighbor(&mut seen, "c".to_string(), 2), NeighborOutcome::BudgetExhausted);
    let ids: Vec<&str> = seen.iter().map(|n| n.id.as_str()).collect();
    assert_eq!(ids, vec!["a", "b"]);
}

#[test]
fn traversal_limitations_are_canonical() {
    let l = |code: &str| IndexLimitation { code: code.to_string(), path: None, symbol_id: None, reason: "r".to_string(), interpretation: "i".to_string() };
    let out = canonicalize_limitations(vec![l("b"), l("a"), l("b")]);
    let codes: Vec<&str> = out.iter().map(|x| x.code.as_str()).collect();
    assert_eq!(codes, vec!["a", "b"]);
}

fn locator(source: ReviewSource) -> RepositoryLocator {
    RepositoryLocator {
        source,
        object_format: "sha1".to_string(),
        base_tree: Some("1".repeat(40)),
        index_manifest_digest: Some(h('2')),
        overlay_candidate_digest: h('3'),
    }
}

fn compatibility() -> GenerationCompatibility {
    GenerationCompatibility {
        graph_schema_version: 1,
        resolver_digest: h('4'),
        adapter_query_digest: h('5'),
        normalization_rules_digest: h('6'),
    }
}

fn identity() -> GraphGenerationIdentity {
    GraphGenerationIdentity {
        graph_schema_version: 1,
        candidate_manifest_digest: h('7'),
        project_model_digest: h('8'),
        resolver_digest: h('4'),
        adapter_query_digest: h('5'),
        file_facts_manifest_digest: h('9'),
        normalization_rules_digest: h('6'),
    }
}

fn reference(completeness: Completeness, key: &str) -> GenerationReference {
    GenerationReference {
        lookup: GenerationLookup::Exact { locator: locator(ReviewSource::Staged) },
        locator: locator(ReviewSource::Staged),
        compatibility: compatibility(),
        identity: identity(),
        generation_key: key.to_string(),
        completeness,
        manifest_files: 1,
        manifest_bytes: 2,
    }
}

#[test]
fn compatibility_rules() {
    assert!(compatibility().validate().is_ok());
    let mut bad = compatibility();
    bad.graph_schema_version = 0;
    assert_eq!(bad.validate().unwrap_err().code, "generation-reference-compatibility-invalid");
}

#[test]
fn lookups_match_their_locators() {
    let branch = locator(ReviewSource::Branch);
    let tree = GenerationLookup::BaseTree { object_format: "sha1".to_string(), tree: "1".repeat(40) };
    assert!(lookup_matches_locator(&tree, &branch));
    assert!(!lookup_matches_locator(&tree, &locator(ReviewSource::Staged)));
    let index = GenerationLookup::IndexManifest { object_format: "sha1".to_string(), index_manifest_digest: h('2') };
    assert!(lookup_matches_locator(&index, &locator(ReviewSource::Staged)));
    assert!(lookup_matches_locator(&GenerationLookup::Exact { locator: branch.clone() }, &branch));
}

#[test]
fn lookup_digest_hashes_the_encoded_key() {
    let encoded = b"[{\"kind\":\"exact\"},{}]";
    let mut message = Vec::new();
    let label = b"repository-generation-exact-locator/v1";
    message.extend_from_slice(&(label.len() as u64).to_be_bytes());
    message.extend_from_slice(label);
    message.extend_from_slice(&(encoded.len() as u64).to_be_bytes());
    message.extend_from_slice(encoded);
    let expected: String = Sha256::digest(&message).iter().map(|b| format!("{b:02x}")).collect();
    assert_eq!(lookup_digest(encoded), expected);
    let store = GenerationLocatorStore::new(CacheLayout::for_repository("/c", "r"));
    assert_eq!(store.exact_lookup_digest(&locator(ReviewSource::Staged), &compatibility(), encoded), Ok(expected.clone()));
    assert_eq!(store.bucket(&expected), format!("/c/v2/repos/r/graphs/locators/v1/{}/{}", &expected[..2], expected));
}

#[test]
fn candidates_are_tried_most_complete_first() {
    let ordered = order_candidates(vec![
        reference(Completeness::Partial, "a"),
        reference(Completeness::Complete, "c"),
        reference(Completeness::Complete, "b"),
    ]);
    let keys: Vec<&str> = ordered.iter().map(|r| r.generation_key.as_str()).collect();
    assert_eq!(keys, vec!["b", "c", "a"]);
}

#[test]
fn written_reference_reads_back() {
    let key = identity().generation_key().unwrap();
    let payload = b"{\"reference\":1}".to_vec();
    let envelope = GenerationReferenceEnvelope {
        magic: "pre-commit-review-generation-reference".to_string(),
        schema_version: 1,
        payload_length: payload.len(),
        payload_sha256: payload_digest(&payload),
        payload: reference(Completeness::Complete, &key),
    };
    let name = format!("{key}.json");
    assert!(matches!(GenerationLocatorStore::accept_reference(envelope.clone(), Some(payload.clone()), &name), CacheLookup::Hit(_)));
    assert_eq!(
        GenerationLocatorStore::accept_reference(envelope.clone(), Some(payload.clone()), "other.json"),
        CacheLookup::Corrupt { code: "generation-reference-filename-mismatch".to_string() }
    );
    let mut wrong = envelope.clone();
    wrong.payload.generation_key = h('0');
    assert_eq!(
        GenerationLocatorStore::accept_reference(wrong, Some(payload.clone()), &name),
        CacheLookup::Corrupt { code: "generation-reference-payload-invalid".to_string() }
    );
    assert_eq!(
        GenerationLocatorStore::accept_reference(envelope, Some(b"x".to_vec()), &name),
        CacheLookup::Corrupt { code: "generation-reference-checksum-mismatch".to_string() }
    );
}

#[test]
fn publish_checks_and_lookups() {
    assert!(check_publish(&locator(ReviewSource::Staged), &compatibility(), &identity()).is_ok());
    let mut other = identity();
    other.resolver_digest = h('f');
    assert_eq!(
        check_publish(&locator(ReviewSource::Staged), &compatibility(), &other).unwrap_err().code,
        "generation-reference-identity-incompatible"
    );
    assert_eq!(publish_lookups(&locator(ReviewSource::Branch)).len(), 2);
    assert!(matches!(publish_lookups(&locator(ReviewSource::Staged))[1], GenerationLookup::IndexManifest { .. }));
    assert_eq!(publish_lookups(&locator(ReviewSource::Unstaged)).len(), 1);
    assert_eq!(combine_publish(&vec![PublishResult::Reused, PublishResult::Published]), PublishResult::Published);
    assert_eq!(combine_publish(&vec![PublishResult::Reused]), PublishResult::Reused);
    assert_eq!(settle_lookup(Some("s".to_string()), Some("c".to_string())), CacheLookup::Corrupt { code: "c".to_string() });
    assert_eq!(settle_lookup(Some("s".to_string()), None), CacheLookup::Stale { code: "s".to_string() });
    assert_eq!(settle_lookup(None, None), CacheLookup::Miss);
}

#[test]
fn languages_by_extension() {
    let p = |s: &str| RepoPath::new(s.to_string()).unwrap();
    assert_eq!(language_for_path(&p("src/lib.rs")), Some("rust".to_string()));
    assert_eq!(language_for_path(&p("Cargo.toml")), Some("toml".to_string()));
    assert_eq!(language_for_path(&p("a.yml")), Some("yaml".to_string()));
    assert_eq!(language_for_path(&p("run.sh")), Some("shell".to_string()));
    assert_eq!(language_for_path(&p("README.md")), None);
}

#[test]
fn words_split_on_white_space() {
    assert_eq!(split_words("100644 abc 0"), vec!["100644", "abc", "0"]);
    assert_eq!(split_words("  a\t b  "), vec!["a", "b"]);
    assert!(split_words("   ").is_empty());
}

#[test]
fn index_listing_parses_and_sorts() {
    let oid = "1".repeat(40);
    let listing = format!("100644 {oid} 0\tsrc/main.rs\x00160000 {oid} 0\tvendor\x00100644 {oid} 0\tREADME.md\x00");
    let records = parse_git_records(listing.as_bytes(), false).unwrap();
    let paths: Vec<&str> = records.iter().map(|r| r.path.as_str()).collect();
    assert_eq!(paths, vec!["README.md", "src/main.rs", "vendor"]);
    assert_eq!(records[2].presence, CandidatePresence::Gitlink);
    assert_eq!(records[0].object_id.as_deref(), Some(oid.as_str()));
}

#[test]
fn tree_listing_and_refusals() {
    let oid = "2".repeat(40);
    let tree = format!("100644 blob {oid}\tlib.rs\x00");
    let records = parse_git_records(tree.as_bytes(), true).unwrap();
    assert_eq!(records[0].mode, "100644");
    let unmerged = format!("100644 {oid} 2\tlib.rs\x00");
    let error = parse_git_records(unmerged.as_bytes(), false).unwrap_err();
    assert_eq!(error.code, "index-unmerged-entry");
    assert_eq!(error.message, "index path is unmerged: lib.rs");
    assert_eq!(parse_git_records(b"no tab here\x00", false).unwrap_err().code, "index-git-output-invalid");
    let bad_type = format!("100644 tag {oid}\tlib.rs\x00");
    assert_eq!(parse_git_records(bad_type.as_bytes(), true).unwrap_err().code, "index-git-output-invalid");
    assert_eq!(parse_git_records(b"", false).unwrap().len(), 0);
}

#[test]
fn records_are_selected_within_the_budget() {
    let oid = "3".repeat(40);
    let listing = format!("100644 {oid} 0\ta.rs\x00100644 {oid} 0\tb.rs\x00100644 {oid} 0\tc.rs\x00");
    let records = parse_git_records(listing.as_bytes(), false).unwrap();
    let mut budget = IndexBudget::fast_defaults();
    budget.max_manifest_files = 2;
    let mut tracker = IndexBudgetTracker::new(budget);
    let selection = select_records(records, &mut tracker);
    assert_eq!(selection.selected.len(), 2);
    assert!(selection.truncated);
    assert_eq!(selection.limitations.len(), 1);
    assert!(selection.truncated_entry.is_none());
    assert_eq!(manifest_completeness(selection.truncated, &Vec::new()), Completeness::Partial);
    assert_eq!(manifest_completeness(false, &Vec::new()), Completeness::Complete);
    let _ = UnitStatus::Completed;
}

#[test]
fn index_digest_hashes_records() {
    let oid = "4".repeat(40);
    let listing = format!("100644 {oid} 0\ta.rs\x00");
    let records = parse_git_records(listing.as_bytes(), false).unwrap();
    let component = |out: &mut Vec<u8>, v: &[u8]| {
        out.extend_from_slice(&(v.len() as u64).to_be_bytes());
        out.extend_from_slice(v);
    };
    let mut message = Vec::new();
    component(&mut message, b"repository-index-manifest/v1");
    component(&mut message, b"sha1");
    component(&mut message, b"a.rs");
    component(&mut message, b"100644");
    message.push(1);
    component(&mut message, oid.as_bytes());
    let expected: String = Sha256::digest(&message).iter().map(|b| format!("{b:02x}")).collect();
    assert_eq!(digest_index_records("sha1", &records), expected);
}
