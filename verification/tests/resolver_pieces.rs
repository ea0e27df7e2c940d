use collect_diff_context::candidate::{CandidatePresence, RepoPath};
use collect_diff_context::contracts::{Completeness, Confidence, ParseQuality, SourceRange, UnitStatus};
use collect_diff_context::graph::GraphSymbol;
use collect_diff_context::model::{
    FileFactKey, IndexLimitation, RepositoryLocator, RepositoryManifest, RepositoryManifestEntry,
};
use collect_diff_context::resolver::{
    add_limitation, enclosing_symbol, first_module_symbol, is_external_or_builtin, join_repo_path,
    limitation_text, module_file_path, module_id, module_local_id, range_contains, symbol_id,
    validate_file_facts, RustRepositoryFileFacts,
};
use collect_diff_context::review_scope::ReviewSource;
use collect_diff_context::rust_syntax::{
    RustCallSiteFact, RustFileFactMetrics, RustFileFacts, RustLocalSymbolFact,
    RustModuleDeclarationFact,
};
use sha2::{Digest, Sha256};

fn path(p: &str) -> RepoPath {
    RepoPath::new(p.to_string()).unwrap()
}

fn range(start: usize, end: usize) -> SourceRange {
    SourceRange {
        start_line: 1,
        start_column: 1,
        end_line: 1,
        end_column: 1,
        start_byte: start,
        end_byte: end,
    }
}

fn hash_component(message: &mut Vec<u8>, bytes: &[u8]) {
    message.extend_from_slice(&(bytes.len() as u64).to_be_bytes());
    message.extend_from_slice(bytes);
}

fn hex_sha256(message: &[u8]) -> String {
    Sha256::digest(message).iter().map(|byte| format!("{byte:02x}")).collect()
}

fn empty_facts() -> RustFileFacts {
    RustFileFacts {
        parse_quality: ParseQuality::Clean,
        symbols: Vec::new(),
        imports: Vec::new(),
        references: Vec::new(),
        calls: Vec::new(),
        module_declarations: Vec::new(),
        attributes: Vec::new(),
        recovery_ranges: Vec::new(),
        limitations: Vec::new(),
        metrics: RustFileFactMetrics {
            nodes_visited: 0,
            max_nesting_depth: 0,
            facts_emitted: 0,
            source_bytes: 0,
        },
    }
}

fn local_symbol(local_id: &str, name: &str, owner: Option<&str>, r: SourceRange) -> RustLocalSymbolFact {
    RustLocalSymbolFact {
        local_id: local_id.to_string(),
        kind: "module".to_string(),
        name: name.to_string(),
        owner_local_id: owner.map(|o| o.to_string()),
        signature: String::new(),
        visibility: None,
        range: r,
    }
}

fn declaration(name: &str, path_override: Option<&str>, r: SourceRange) -> RustModuleDeclarationFact {
    RustModuleDeclarationFact {
        name: name.to_string(),
        inline: false,
        path_override: path_override.map(|p| p.to_string()),
        owner_local_id: None,
        range: r,
    }
}

fn graph_symbol(id: char, file: &str, module: &str, r: SourceRange) -> GraphSymbol {
    GraphSymbol {
        symbol_id: id.to_string().repeat(64),
        local_id: "l".to_string(),
        module_id: module.to_string(),
        path: path(file),
        language: "rust".to_string(),
        kind: "function".to_string(),
        name: "f".to_string(),
        owner_symbol_id: None,
        signature: None,
        visibility: None,
        range: r,
        confidence: Confidence::Medium,
    }
}

fn key(digest: char) -> FileFactKey {
    FileFactKey {
        language: "rust".to_string(),
        content_sha256: digest.to_string().repeat(64),
        grammar_version: "0.24".to_string(),
        query_digest: "b".repeat(64),
        adapter_version: "1".to_string(),
        normalization_rules_digest: "c".repeat(64),
        schema_version: 1,
    }
}

fn entry(p: &str, digest: Option<char>, presence: CandidatePresence) -> RepositoryManifestEntry {
    RepositoryManifestEntry {
        path: path(p),
        mode: "100644".to_string(),
        presence,
        content_sha256: digest.map(|d| d.to_string().repeat(64)),
        content_bytes: Some(10),
        language: Some("rust".to_string()),
        status: UnitStatus::Completed,
        limitation_codes: Vec::new(),
    }
}

fn manifest(entries: Vec<RepositoryManifestEntry>) -> RepositoryManifest {
    RepositoryManifest {
        locator: RepositoryLocator {
            source: ReviewSource::Staged,
            object_format: "sha1".to_string(),
            base_tree: None,
            index_manifest_digest: None,
            overlay_candidate_digest: "d".repeat(64),
        },
        digest: "e".repeat(64),
        entries,
        completeness: Completeness::Complete,
        limitations: Vec::new(),
    }
}

fn file_facts(p: &str, k: FileFactKey) -> RustRepositoryFileFacts {
    RustRepositoryFileFacts { path: path(p), key: k, facts: empty_facts() }
}

#[test]
fn range_contains_includes_both_ends() {
    assert!(range_contains(&range(0, 10), &range(0, 10)));
    assert!(range_contains(&range(0, 10), &range(3, 7)));
    assert!(!range_contains(&range(2, 10), &range(1, 5)));
    assert!(!range_contains(&range(0, 10), &range(5, 11)));
}

#[test]
fn module_and_symbol_ids_hash_their_components() {
    let src = path("src/lib.rs");
    let mut message = Vec::new();
    hash_component(&mut message, b"rust-repository-module/v1");
    hash_component(&mut message, b"");
    hash_component(&mut message, b"crate");
    hash_component(&mut message, b"src/lib.rs");
    hash_component(&mut message, &[0u8]);
    let root = module_id(None, "crate", &src, false);
    assert_eq!(root, hex_sha256(&message));
    assert_ne!(root, module_id(None, "crate", &src, true));
    assert_ne!(root, module_id(Some("parent"), "crate", &src, false));

    let mut message = Vec::new();
    hash_component(&mut message, b"rust-repository-symbol/v1");
    hash_component(&mut message, root.as_bytes());
    hash_component(&mut message, b"src/lib.rs");
    hash_component(&mut message, b"fn:main");
    assert_eq!(symbol_id(&root, &src, "fn:main"), hex_sha256(&message));
}

#[test]
fn join_repo_path_joins_under_a_directory() {
    assert_eq!(join_repo_path("src", "util.rs").unwrap().as_str(), "src/util.rs");
    assert_eq!(join_repo_path("", "util.rs").unwrap().as_str(), "util.rs");
    assert!(join_repo_path("src", "../outside.rs").is_none());
    assert!(join_repo_path("src", "").is_none());
}

#[test]
fn module_file_path_prefers_the_file_then_mod_rs() {
    let source = path("src/lib.rs");
    let both = vec![path("src/util.rs"), path("src/util/mod.rs")];
    let only_dir = vec![path("src/util/mod.rs")];
    let decl = declaration("util", None, range(0, 9));
    assert_eq!(module_file_path(&source, &decl, &both).unwrap().as_str(), "src/util.rs");
    assert_eq!(module_file_path(&source, &decl, &only_dir).unwrap().as_str(), "src/util/mod.rs");
    assert!(module_file_path(&source, &decl, &Vec::new()).is_none());

    let root_source = path("main.rs");
    let root_paths = vec![path("util.rs")];
    assert_eq!(module_file_path(&root_source, &decl, &root_paths).unwrap().as_str(), "util.rs");
}

#[test]
fn module_file_path_follows_a_path_override() {
    let source = path("src/lib.rs");
    let decl = declaration("util", Some("other/place.rs"), range(0, 9));
    let paths = vec![path("src/util.rs"), path("src/other/place.rs")];
    assert_eq!(module_file_path(&source, &decl, &paths).unwrap().as_str(), "src/other/place.rs");
    let missing = vec![path("src/util.rs")];
    assert!(module_file_path(&source, &decl, &missing).is_none());
}

#[test]
fn module_local_id_prefers_the_symbol_at_the_declaration() {
    let mut facts = empty_facts();
    facts.symbols.push(local_symbol("mod:a", "util", None, range(50, 60)));
    facts.symbols.push(local_symbol("mod:b", "util", None, range(0, 9)));
    facts.symbols.push(local_symbol("mod:c", "other", None, range(0, 9)));
    let exact = declaration("util", None, range(0, 9));
    assert_eq!(module_local_id(&facts, &exact), Some("mod:b".to_string()));
    let elsewhere = declaration("util", None, range(100, 110));
    assert_eq!(module_local_id(&facts, &elsewhere), Some("mod:a".to_string()));
    let unknown = declaration("absent", None, range(0, 9));
    assert_eq!(module_local_id(&facts, &unknown), None);
}

#[test]
fn enclosing_symbol_picks_the_narrowest() {
    let symbols = vec![
        graph_symbol('a', "src/lib.rs", "m", range(0, 100)),
        graph_symbol('b', "src/lib.rs", "m", range(10, 40)),
        graph_symbol('c', "src/lib.rs", "m", range(12, 42)),
        graph_symbol('d', "src/lib.rs", "other", range(15, 20)),
        graph_symbol('e', "src/main.rs", "m", range(15, 20)),
    ];
    let found = enclosing_symbol(&path("src/lib.rs"), "m", &range(15, 20), &symbols);
    assert_eq!(found, Some("b".repeat(64)));
    let outside = enclosing_symbol(&path("src/lib.rs"), "m", &range(150, 160), &symbols);
    assert_eq!(outside, None);
}

#[test]
fn first_module_symbol_orders_by_start_then_id() {
    let symbols = vec![
        graph_symbol('c', "src/lib.rs", "m", range(5, 9)),
        graph_symbol('b', "src/lib.rs", "m", range(5, 9)),
        graph_symbol('a', "src/lib.rs", "m", range(20, 30)),
        graph_symbol('0', "src/lib.rs", "other", range(0, 1)),
    ];
    assert_eq!(first_module_symbol("m", &symbols), Some("b".repeat(64)));
    assert_eq!(first_module_symbol("absent", &symbols), None);
}

#[test]
fn external_or_builtin_calls_are_recognised() {
    let call = |callee: &str| RustCallSiteFact {
        callee: callee.to_string(),
        qualifier: Vec::new(),
        call_kind: "macro".to_string(),
        caller_local_id: None,
        range: range(0, 1),
    };
    assert!(is_external_or_builtin(&call("println")));
    assert!(is_external_or_builtin(&call("assert_eq")));
    assert!(!is_external_or_builtin(&call("compute")));
}

#[test]
fn resolver_limitations_are_recorded_once() {
    let (reason, interpretation) = limitation_text("rust-resolver-method-call-unresolved");
    assert_eq!(reason, "method dispatch requires type and trait information");
    assert_eq!(interpretation, "the call is syntactic and is not a confirmed target");
    let (fallback, _) = limitation_text("rust-resolver-budget");
    assert_eq!(fallback, "repository resolution was bounded or incomplete");

    let mut limitations: Vec<IndexLimitation> = Vec::new();
    add_limitation(&mut limitations, "rust-resolver-cfg-conditional", Some(path("src/lib.rs")), None);
    add_limitation(&mut limitations, "rust-resolver-cfg-conditional", Some(path("src/lib.rs")), None);
    assert_eq!(limitations.len(), 1);
    assert_eq!(limitations[0].reason, "conditional compilation can change the visible graph");
    add_limitation(&mut limitations, "rust-resolver-cfg-conditional", Some(path("src/main.rs")), None);
    add_limitation(&mut limitations, "rust-resolver-cfg-conditional", None, Some("x".to_string()));
    assert_eq!(limitations.len(), 3);
}

#[test]
fn validate_file_facts_accepts_matching_facts() {
    let m = manifest(vec![
        entry("src/lib.rs", Some('a'), CandidatePresence::Present),
        entry("src/main.rs", Some('f'), CandidatePresence::Present),
    ]);
    let files = vec![file_facts("src/lib.rs", key('a')), file_facts("src/main.rs", key('f'))];
    assert!(validate_file_facts(&m, &files).is_ok());
    assert!(validate_file_facts(&m, &Vec::new()).is_ok());
}

#[test]
fn validate_file_facts_reports_each_problem() {
    let m = manifest(vec![
        entry("src/lib.rs", Some('a'), CandidatePresence::Present),
        entry("src/gone.rs", Some('a'), CandidatePresence::Deleted),
    ]);
    let mut bad_key = key('a');
    bad_key.schema_version = 0;
    let code = |files: Vec<RustRepositoryFileFacts>| validate_file_facts(&m, &files).unwrap_err().code;
    assert_eq!(code(vec![file_facts("src/lib.rs", bad_key)]), "rust-resolver-file-fact-key-invalid");
    assert_eq!(code(vec![file_facts("src/other.rs", key('a'))]), "rust-resolver-file-fact-path-unknown");
    assert_eq!(code(vec![file_facts("src/lib.rs", key('f'))]), "rust-resolver-file-fact-identity-mismatch");
    assert_eq!(code(vec![file_facts("src/gone.rs", key('a'))]), "rust-resolver-file-fact-identity-mismatch");
    let mut python = key('a');
    python.language = "python".to_string();
    assert_eq!(code(vec![file_facts("src/lib.rs", python)]), "rust-resolver-file-fact-identity-mismatch");
    assert_eq!(
        code(vec![file_facts("src/lib.rs", key('a')), file_facts("src/lib.rs", key('a'))]),
        "rust-resolver-file-fact-duplicate"
    );
}
