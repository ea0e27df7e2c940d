use collect_diff_context::candidate::RepoPath;
use collect_diff_context::contracts::{
    ChangedSymbol, Completeness, Confidence, EdgeKind, ImpactMode, ProviderStatus, Resolution,
    SourceRange,
};
use collect_diff_context::digest::stable_id;
use collect_diff_context::graph::{GraphEdge, GraphSymbol};
use collect_diff_context::index_budget::IndexBudget;
use collect_diff_context::model::IndexLimitation;
use collect_diff_context::repository_index::{
    finish_graph_limitations, impact_limitations, index_provider_status, matching_seeds,
    merge_completeness, reader_limits, record_generation_lookup, repository_index_provider_id,
    retain_known_edges, simple_index_limitation, unavailable_status, validate_request, CacheStats,
    GenerationLookupOutcome, RepositoryIndexRequest,
};
use collect_diff_context::review_scope::ReviewSource;

fn limitation(code: &str, path: Option<&str>) -> IndexLimitation {
    IndexLimitation {
        code: code.to_string(),
        path: path.map(|p| RepoPath::new(p.to_string()).unwrap()),
        symbol_id: None,
        reason: "reason".to_string(),
        interpretation: "interpretation".to_string(),
    }
}

fn request(mode: ImpactMode, write: bool, manifest: ReviewSource) -> RepositoryIndexRequest {
    RepositoryIndexRequest {
        changed_symbols: Vec::new(),
        mode,
        cache_read: true,
        cache_write: write,
        index_budget: IndexBudget::fast_defaults(),
        candidate_source: ReviewSource::Staged,
        manifest_source: manifest,
    }
}

fn range(start: usize, end: usize) -> SourceRange {
    SourceRange { start_line: 1, start_column: 1, end_line: 1, end_column: 2, start_byte: start, end_byte: end }
}

fn graph_symbol(id: char, name: &str, start: usize) -> GraphSymbol {
    GraphSymbol {
        symbol_id: id.to_string().repeat(64),
        local_id: "l".to_string(),
        module_id: "m".repeat(64),
        path: RepoPath::new("src/lib.rs".to_string()).unwrap(),
        language: "rust".to_string(),
        kind: "function".to_string(),
        name: name.to_string(),
        owner_symbol_id: None,
        signature: None,
        visibility: None,
        range: range(start, start + 5),
        confidence: Confidence::Medium,
    }
}

fn changed(name: &str, start: usize) -> ChangedSymbol {
    ChangedSymbol {
        symbol_id: "x".to_string(),
        provider_id: "p".to_string(),
        path: "src/lib.rs".to_string(),
        language: "rust".to_string(),
        kind: "function".to_string(),
        name: name.to_string(),
        owner: None,
        signature: None,
        visibility: None,
        range: range(start, start + 2),
        confidence: Confidence::High,
    }
}

fn edge(id: char, from: char, to: Option<char>) -> GraphEdge {
    GraphEdge {
        edge_id: id.to_string().repeat(64),
        kind: EdgeKind::Calls,
        from_symbol: from.to_string().repeat(64),
        to_symbol: to.map(|t| t.to_string().repeat(64)),
        unresolved_target: if to.is_none() { Some("t".to_string()) } else { None },
        path: RepoPath::new("src/lib.rs".to_string()).unwrap(),
        range: range(0, 1),
        provider_id: "p".to_string(),
        provider_version: "v".to_string(),
        resolution: Resolution::Lexical,
        confidence: Confidence::Low,
        limitation_code: None,
    }
}

#[test]
fn request_rules() {
    assert!(validate_request(&request(ImpactMode::Deep, true, ReviewSource::Staged)).is_ok());
    assert_eq!(
        validate_request(&request(ImpactMode::Fast, true, ReviewSource::Staged)).unwrap_err().code,
        "repository-index-fast-write-forbidden"
    );
    assert_eq!(
        validate_request(&request(ImpactMode::Deep, false, ReviewSource::Branch)).unwrap_err().code,
        "repository-index-source-mismatch"
    );
}

#[test]
fn provider_id_is_a_stable_id() {
    assert_eq!(
        repository_index_provider_id(),
        stable_id("impact-provider/v1", &["repository-index", "repository-index/g1-r1-q1-n1"])
    );
    assert_eq!(repository_index_provider_id().len(), 16);
}

#[test]
fn completeness_merge_table() {
    let complete = Completeness::Complete;
    let partial = Completeness::Partial;
    let unavailable = Completeness::Unavailable;
    assert_eq!(merge_completeness(complete, complete), complete);
    assert_eq!(merge_completeness(complete, partial), partial);
    assert_eq!(merge_completeness(partial, complete), partial);
    assert_eq!(merge_completeness(partial, unavailable), unavailable);
    assert_eq!(merge_completeness(unavailable, complete), unavailable);
    for a in [complete, partial, unavailable] {
        for b in [complete, partial, unavailable] {
            assert_eq!(merge_completeness(a, b), merge_completeness(b, a));
        }
    }
}

#[test]
fn provider_status_rules() {
    let none: Vec<IndexLimitation> = Vec::new();
    assert_eq!(index_provider_status(Completeness::Complete, Completeness::Complete, false, &none), ProviderStatus::Completed);
    assert_eq!(index_provider_status(Completeness::Complete, Completeness::Complete, true, &none), ProviderStatus::Partial);
    let budget = vec![limitation("index-query-row-budget-exhausted", None)];
    assert_eq!(index_provider_status(Completeness::Complete, Completeness::Complete, false, &budget), ProviderStatus::BudgetExhausted);
}

#[test]
fn impact_limitations_are_sorted_and_unique() {
    let ls = vec![limitation("b", None), limitation("a", None), limitation("b", None)];
    let out = impact_limitations("provider", &ls);
    assert_eq!(out.len(), 2);
    assert!(out[0].limitation_id < out[1].limitation_id);
    let expected = stable_id("impact-limitation/v1", &["a", "provider", "", "", "reason", "interpretation"]);
    assert!(out.iter().any(|l| l.limitation_id == expected && l.code == "a"));
    assert!(out.iter().all(|l| l.provider_id.as_deref() == Some("provider") && l.improvable_in_deep_mode));
}

#[test]
fn reader_limits_from_budget() {
    let mut budget = IndexBudget::fast_defaults();
    budget.max_query_rows = 0;
    let limits = reader_limits(&budget);
    assert_eq!(limits.maximum_rows_per_query, 1);
    assert_eq!(limits.maximum_string_bytes, 4096);
    assert_eq!(limits.maximum_database_bytes, budget.max_generation_bytes as u64);
}

#[test]
fn partial_graph_gains_an_omission() {
    let out = finish_graph_limitations(
        Vec::new(),
        vec![limitation("unscoped", None)],
        Completeness::Partial,
        Some(RepoPath::new("Cargo.toml".to_string()).unwrap()),
    );
    assert_eq!(out.len(), 1);
    assert_eq!(out[0].code, "repository-index-partial-omission");
    assert_eq!(out[0].path.as_ref().map(|p| p.as_str()), Some("Cargo.toml"));
}

#[test]
fn scoped_manifest_limitations_are_added_once_and_sorted() {
    let out = finish_graph_limitations(
        vec![limitation("z", Some("b.rs"))],
        vec![limitation("a", Some("a.rs")), limitation("z", Some("b.rs"))],
        Completeness::Partial,
        None,
    );
    let codes: Vec<&str> = out.iter().map(|l| l.code.as_str()).collect();
    assert_eq!(codes, vec!["a", "z"]);
}

#[test]
fn seeds_match_name_language_and_range() {
    let candidates = vec![graph_symbol('b', "run", 0), graph_symbol('a', "run", 2), graph_symbol('c', "other", 0), graph_symbol('d', "run", 100)];
    let seeds = matching_seeds(candidates, &changed("run", 1));
    let ids: Vec<String> = seeds.iter().map(|s| s.symbol_id.clone()).collect();
    assert_eq!(ids, vec!["a".repeat(64), "b".repeat(64)]);
}

#[test]
fn edges_with_unknown_ends_are_dropped() {
    let known = vec!["a".repeat(64), "b".repeat(64)];
    let edges = vec![edge('1', 'a', Some('b')), edge('2', 'a', Some('z')), edge('3', 'z', None), edge('4', 'b', None)];
    let kept = retain_known_edges(edges, &known);
    let ids: Vec<char> = kept.iter().map(|e| e.edge_id.chars().next().unwrap()).collect();
    assert_eq!(ids, vec!['1', '4']);
}

#[test]
fn generation_lookups_are_counted() {
    let mut stats = CacheStats { hits: 0, misses: 0, stale: 0, corrupt: 0 };
    assert!(record_generation_lookup(&mut stats, &GenerationLookupOutcome::Hit).is_none());
    assert!(record_generation_lookup(&mut stats, &GenerationLookupOutcome::Miss).is_none());
    let stale = record_generation_lookup(&mut stats, &GenerationLookupOutcome::Stale("old".to_string())).unwrap();
    assert_eq!(stale.code, "repository-index-generation-stale");
    assert_eq!(stale.reason, "old");
    let corrupt = record_generation_lookup(&mut stats, &GenerationLookupOutcome::Corrupt("bad".to_string())).unwrap();
    assert_eq!(corrupt.code, "repository-index-generation-corrupt");
    assert_eq!(stats, CacheStats { hits: 1, misses: 1, stale: 1, corrupt: 1 });
    assert_eq!(unavailable_status(&stats), ProviderStatus::Stale);
    assert_eq!(unavailable_status(&CacheStats { hits: 0, misses: 0, stale: 0, corrupt: 2 }), ProviderStatus::InvalidOutput);
    assert_eq!(unavailable_status(&CacheStats { hits: 0, misses: 3, stale: 0, corrupt: 0 }), ProviderStatus::Unavailable);
}

#[test]
fn simple_limitation_shape() {
    let l = simple_index_limitation("code", "detail");
    assert_eq!(l.code, "code");
    assert!(l.path.is_none() && l.symbol_id.is_none());
    assert_eq!(l.reason, "detail");
    assert_eq!(l.interpretation, "repository graph evidence is incomplete or unavailable");
}
