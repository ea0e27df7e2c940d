use collect_diff_context::cache::CacheLayout;
use collect_diff_context::candidate::{CandidatePresence, RepoPath};
use collect_diff_context::contracts::{Completeness, Confidence, EdgeKind, Resolution, SourceRange};
use collect_diff_context::generation::{
    bounded_reader_text, check_generation_counts, check_generation_header, check_generation_meta,
    check_generation_rows, check_reader_counts, check_reader_metadata, check_reader_schema,
    decode_edge_row, generation_key_from_file_name, limitation_id, parse_confidence,
    parse_edge_kind, parse_resolution, query_row_limit_valid, sqlite_integer,
    validate_reader_limits, EdgeRow, GenerationMeta, ReaderLimits, ReaderValidationError,
    RepositoryGraphWriter, TableCounts,
};
use collect_diff_context::graph::{
    validate_graph, GraphEdge, GraphFile, GraphModule, GraphSymbol, RepositoryGraph,
};
use collect_diff_context::integrity::{graph_rows_root, CanonicalGraphRows};
use collect_diff_context::model::{GraphGenerationIdentity, IndexLimitation};
use sha2::{Digest, Sha256};

fn h(c: char) -> String {
    c.to_string().repeat(64)
}

fn identity() -> GraphGenerationIdentity {
    GraphGenerationIdentity {
        graph_schema_version: 1,
        candidate_manifest_digest: h('1'),
        project_model_digest: h('2'),
        resolver_digest: h('3'),
        adapter_query_digest: h('4'),
        file_facts_manifest_digest: h('5'),
        normalization_rules_digest: h('6'),
    }
}

fn path(p: &str) -> RepoPath {
    RepoPath::new(p.to_string()).unwrap()
}

fn range() -> SourceRange {
    SourceRange { start_line: 1, start_column: 1, end_line: 2, end_column: 1, start_byte: 0, end_byte: 10 }
}

fn edge() -> GraphEdge {
    GraphEdge {
        edge_id: h('e'),
        kind: EdgeKind::Calls,
        from_symbol: h('b'),
        to_symbol: None,
        unresolved_target: Some("helper".to_string()),
        path: path("src/lib.rs"),
        range: range(),
        provider_id: "rust-tree-sitter-resolver".to_string(),
        provider_version: "rust-resolver/v1".to_string(),
        resolution: Resolution::Unresolved,
        confidence: Confidence::Low,
        limitation_code: None,
    }
}

fn graph() -> RepositoryGraph {
    RepositoryGraph {
        identity: identity(),
        files: vec![GraphFile {
            path: path("src/lib.rs"),
            mode: "100644".to_string(),
            presence: CandidatePresence::Present,
            content_sha256: Some(h('c')),
            file_fact_key: None,
            language: Some("rust".to_string()),
            module_id: Some(h('a')),
        }],
        modules: vec![GraphModule {
            module_id: h('a'),
            parent_module_id: None,
            crate_name: "demo".to_string(),
            path: path("src/lib.rs"),
            inline: false,
            root_module: true,
            resolution_status: "resolved".to_string(),
        }],
        symbols: vec![GraphSymbol {
            symbol_id: h('b'),
            local_id: "fn:main".to_string(),
            module_id: h('a'),
            path: path("src/lib.rs"),
            language: "rust".to_string(),
            kind: "function".to_string(),
            name: "main".to_string(),
            owner_symbol_id: None,
            signature: None,
            visibility: None,
            range: range(),
            confidence: Confidence::Medium,
        }],
        edges: vec![edge()],
        completeness: Completeness::Complete,
        limitations: Vec::new(),
    }
}

fn limits() -> ReaderLimits {
    ReaderLimits { maximum_database_bytes: 1000, maximum_rows_per_query: 10, maximum_string_bytes: 100 }
}

#[test]
fn valid_graph_is_accepted() {
    assert_eq!(validate_graph(&graph()), Ok(()));
}

#[test]
fn graph_completeness_rules() {
    let mut g = graph();
    g.completeness = Completeness::Unavailable;
    assert_eq!(validate_graph(&g).unwrap_err().code, "generation-unavailable-not-persistable");
    let mut g = graph();
    g.limitations.push(IndexLimitation {
        code: "x".to_string(),
        path: None,
        symbol_id: None,
        reason: "r".to_string(),
        interpretation: "i".to_string(),
    });
    assert_eq!(validate_graph(&g).unwrap_err().code, "complete-generation-has-limitations");
    g.completeness = Completeness::Partial;
    assert_eq!(validate_graph(&g).unwrap_err().code, "partial-generation-omissions-required");
    g.limitations[0].path = Some(path("src/lib.rs"));
    assert_eq!(validate_graph(&g), Ok(()));
}

#[test]
fn graph_reference_rules() {
    let mut g = graph();
    g.identity.resolver_digest = "bad".to_string();
    assert_eq!(validate_graph(&g).unwrap_err().code, "generation-identity-invalid");
    let mut g = graph();
    g.files[0].mode = "10064x".to_string();
    assert_eq!(validate_graph(&g).unwrap_err().code, "generation-file-mode-invalid");
    let mut g = graph();
    g.files[0].content_sha256 = None;
    assert_eq!(validate_graph(&g).unwrap_err().code, "generation-file-content-missing");
    let mut g = graph();
    g.modules[0].parent_module_id = Some(h('9'));
    assert_eq!(validate_graph(&g).unwrap_err().code, "generation-parent-module-missing");
    let mut g = graph();
    g.symbols[0].owner_symbol_id = Some(h('9'));
    assert_eq!(validate_graph(&g).unwrap_err().code, "generation-owner-symbol-missing");
    let mut g = graph();
    g.edges[0].to_symbol = Some(h('b'));
    assert_eq!(validate_graph(&g).unwrap_err().code, "generation-edge-target-invalid");
    let mut g = graph();
    g.edges[0].range.start_line = 0;
    assert_eq!(validate_graph(&g).unwrap_err().code, "generation-range-invalid");
    let mut g = graph();
    g.files.push(g.files[0].clone());
    assert_eq!(validate_graph(&g).unwrap_err().code, "generation-order-invalid");
}

#[test]
fn writer_places_generation_by_key() {
    let writer = RepositoryGraphWriter::new(CacheLayout::for_repository("/c", "r"));
    let key = identity().generation_key().unwrap();
    assert_eq!(writer.generation_path(&identity()).unwrap(), format!("/c/v2/repos/r/graphs/{key}.sqlite"));
    let mut bad = identity();
    bad.graph_schema_version = 0;
    assert_eq!(writer.generation_path(&bad).unwrap_err().code, "generation-identity-invalid");
}

#[test]
fn reader_limit_rules() {
    assert_eq!(validate_reader_limits(limits()), Ok(()));
    let mut zero = limits();
    zero.maximum_rows_per_query = 0;
    assert_eq!(validate_reader_limits(zero).unwrap_err().code, "reader-limits-invalid");
    assert_eq!(query_row_limit_valid(limits(), 10), Ok(()));
    assert_eq!(query_row_limit_valid(limits(), 11).unwrap_err().code, "reader-row-limit-invalid");
    assert_eq!(query_row_limit_valid(limits(), 0).unwrap_err().code, "reader-row-limit-invalid");
}

#[test]
fn file_name_carries_the_key() {
    let name = format!("{}.sqlite", h('f'));
    assert_eq!(generation_key_from_file_name(&name), Some(h('f')));
    assert_eq!(generation_key_from_file_name("abc.sqlite"), None);
    assert_eq!(generation_key_from_file_name(&h('f')), None);
}

#[test]
fn reader_text_bounds() {
    assert!(bounded_reader_text("abc", 3));
    assert!(!bounded_reader_text("abcd", 3));
    assert!(!bounded_reader_text("", 3));
    assert!(!bounded_reader_text("a\tb", 10));
    assert!(!bounded_reader_text("é", 1));
}

#[test]
fn stored_names_parse() {
    assert_eq!(parse_edge_kind("calls"), Ok(EdgeKind::Calls));
    assert_eq!(parse_edge_kind("call").unwrap_err().code, "generation-row-corrupt");
    assert_eq!(parse_resolution("resolved-reference"), Ok(Resolution::ResolvedReference));
    assert_eq!(parse_confidence("medium"), Ok(Confidence::Medium));
    assert!(parse_confidence("Medium").is_err());
}

#[test]
fn limitation_id_hashes_index_and_row() {
    let canonical = "{\"code\":\"x\"}";
    let mut message = b"repository-graph-limitation/v1".to_vec();
    message.extend_from_slice(&3u64.to_be_bytes());
    message.extend_from_slice(&(canonical.len() as u64).to_be_bytes());
    message.extend_from_slice(canonical.as_bytes());
    let expected: String = Sha256::digest(&message).iter().map(|b| format!("{b:02x}")).collect();
    assert_eq!(limitation_id(3, canonical), expected);
}

#[test]
fn sqlite_integer_range() {
    assert_eq!(sqlite_integer(5, "count"), Ok(5));
    if usize::MAX as u64 > i64::MAX as u64 {
        let error = sqlite_integer(usize::MAX, "count").unwrap_err();
        assert_eq!(error.code, "generation-integer-overflow");
        assert_eq!(error.message, "count exceeds SQLite integer range");
    }
}

fn row() -> EdgeRow {
    let e = edge();
    EdgeRow {
        edge_id: Some(e.edge_id.clone()),
        kind: Some("calls".to_string()),
        from_symbol: Some(e.from_symbol.clone()),
        to_symbol: Some(None),
        unresolved_target: Some(Some("helper".to_string())),
        path: Some("src/lib.rs".to_string()),
        start_line: Some(1),
        start_column: Some(1),
        end_line: Some(2),
        end_column: Some(1),
        start_byte: Some(0),
        end_byte: Some(10),
        provider_id: Some(e.provider_id.clone()),
        provider_version: Some(e.provider_version.clone()),
        resolution: Some("unresolved".to_string()),
        confidence: Some("low".to_string()),
        limitation_code: Some(None),
        canonical: Some("{...}".to_string()),
    }
}

#[test]
fn edge_row_decodes_when_it_agrees_with_its_canonical_form() {
    assert_eq!(decode_edge_row(row(), limits(), Some(edge())), Ok(edge()));
    assert_eq!(decode_edge_row(row(), limits(), None).unwrap_err().code, "generation-row-corrupt");
    let mut other = edge();
    other.confidence = Confidence::High;
    assert!(decode_edge_row(row(), limits(), Some(other)).is_err());
    let mut bad = row();
    bad.start_line = Some(-1);
    assert!(decode_edge_row(bad, limits(), Some(edge())).is_err());
    let mut both = row();
    both.to_symbol = Some(Some(h('b')));
    assert!(decode_edge_row(both, limits(), Some(edge())).is_err());
}

fn rows() -> CanonicalGraphRows {
    CanonicalGraphRows {
        identity: "{\"identity\":1}".to_string(),
        completeness: "\"complete\"".to_string(),
        files: vec!["f".to_string()],
        modules: vec!["m".to_string()],
        symbols: vec!["s".to_string()],
        edges: vec!["e".to_string()],
        limitations: Vec::new(),
    }
}

fn meta() -> GenerationMeta {
    let r = rows();
    GenerationMeta {
        schema_version: 1,
        generation_key: identity().generation_key().unwrap(),
        identity_json: r.identity.clone(),
        completeness: r.completeness.clone(),
        file_count: 1,
        module_count: 1,
        symbol_count: 1,
        edge_count: 1,
        limitation_count: 0,
        application_root: graph_rows_root(&r),
    }
}

#[test]
fn written_generation_checks() {
    assert_eq!(check_generation_header(1347568457, 1), Ok(()));
    assert_eq!(check_generation_header(7, 1).unwrap_err().code, "generation-application-id-mismatch");
    assert_eq!(check_generation_header(1347568457, 2).unwrap_err().code, "generation-schema-version-mismatch");
    assert_eq!(check_generation_meta(&identity(), &rows(), &meta()), Ok(()));
    let mut m = meta();
    m.completeness = "\"partial\"".to_string();
    assert_eq!(check_generation_meta(&identity(), &rows(), &m).unwrap_err().code, "generation-metadata-mismatch");
    let counts = TableCounts { files: 1, modules: 1, symbols: 1, edges: 1, limitations: 0 };
    assert_eq!(check_generation_counts(&rows(), &meta(), counts), Ok(()));
    let mut wrong = counts;
    wrong.edges = 2;
    assert_eq!(check_generation_counts(&rows(), &meta(), wrong).unwrap_err().code, "generation-count-mismatch");
    let mut negative = meta();
    negative.file_count = -1;
    assert_eq!(check_generation_counts(&rows(), &negative, counts).unwrap_err().code, "generation-count-invalid");
    let root = graph_rows_root(&rows());
    assert_eq!(check_generation_rows(&rows(), &rows(), &root, false, "ok"), Ok(()));
    assert_eq!(
        check_generation_rows(&rows(), &rows(), &h('0'), false, "ok").unwrap_err().code,
        "generation-application-root-mismatch"
    );
    assert_eq!(
        check_generation_rows(&rows(), &rows(), &root, true, "ok").unwrap_err().code,
        "generation-foreign-key-mismatch"
    );
    assert_eq!(
        check_generation_rows(&rows(), &rows(), &root, false, "corrupt").unwrap_err().code,
        "generation-integrity-check-failed"
    );
}

fn names(v: &[&str]) -> Option<Vec<String>> {
    Some(v.iter().map(|s| s.to_string()).collect())
}

#[test]
fn reader_schema_check() {
    let tables = names(&["edges", "files", "generation_meta", "limitations", "modules", "symbols"]);
    let indexes = names(&["edges_from_kind_id", "edges_path_id", "edges_to_kind_id", "symbols_module_name", "symbols_path_id"]);
    assert!(check_reader_schema(&tables, &indexes).is_ok());
    let fewer = names(&["edges", "files"]);
    assert_eq!(
        check_reader_schema(&fewer, &indexes),
        Err(ReaderValidationError::Corrupt("generation-schema-invalid".to_string()))
    );
    assert_eq!(
        check_reader_schema(&tables, &None),
        Err(ReaderValidationError::Corrupt("generation-index-invalid".to_string()))
    );
}

#[test]
fn reader_metadata_check() {
    let m = meta();
    let opened = check_reader_metadata(Some(1), Some(m.clone()), limits(), &identity(), Some(identity()), Some(Completeness::Complete));
    assert_eq!(opened, Ok((identity(), Completeness::Complete)));
    let mut other = identity();
    other.project_model_digest = h('9');
    assert_eq!(
        check_reader_metadata(Some(1), Some(m.clone()), limits(), &identity(), Some(other), Some(Completeness::Complete)),
        Err(ReaderValidationError::Stale("generation-identity-stale".to_string()))
    );
    assert_eq!(
        check_reader_metadata(Some(2), Some(m.clone()), limits(), &identity(), Some(identity()), Some(Completeness::Complete)),
        Err(ReaderValidationError::Corrupt("generation-metadata-row-count-mismatch".to_string()))
    );
    assert_eq!(
        check_reader_metadata(Some(1), Some(m.clone()), limits(), &identity(), Some(identity()), None),
        Err(ReaderValidationError::Corrupt("generation-completeness-invalid".to_string()))
    );
    let mut stale_key = m.clone();
    stale_key.generation_key = h('d');
    assert_eq!(
        check_reader_metadata(Some(1), Some(stale_key), limits(), &identity(), Some(identity()), Some(Completeness::Complete)),
        Err(ReaderValidationError::Stale("generation-key-stale".to_string()))
    );
    assert_eq!(
        check_reader_counts(&m, &vec![Some(1), Some(1), Some(1), Some(1), Some(0)], Some(1)),
        Ok(())
    );
    assert_eq!(
        check_reader_counts(&m, &vec![Some(1), Some(1), Some(2), Some(1), Some(0)], Some(1)),
        Err(ReaderValidationError::Corrupt("generation-count-mismatch".to_string()))
    );
    assert_eq!(
        check_reader_counts(&m, &vec![Some(1), Some(1), Some(1), Some(1), Some(0)], Some(0)),
        Err(ReaderValidationError::Corrupt("generation-query-only-invalid".to_string()))
    );
}
