use collect_diff_context::contracts::{ParseQuality, SourceRange};
use collect_diff_context::integrity::{
    canonical_file_facts, file_fact_key_digest, graph_rows_root, payload_digest,
    validate_file_facts, validate_range, validate_segments, validate_text, CanonicalGraphRows,
    GraphRowsRootHasher,
};
use collect_diff_context::model::FileFactKey;
use collect_diff_context::rust_syntax::{
    RustFileFactMetrics, RustFileFacts, RustLocalSymbolFact,
};
use sha2::{Digest, Sha256};

fn range(start: usize, end: usize) -> SourceRange {
    SourceRange {
        start_line: 1,
        start_column: 1,
        end_line: 1,
        end_column: 1 + (end - start) as u32,
        start_byte: start,
        end_byte: end,
    }
}

fn symbol(id: &str, start: usize, owner: Option<&str>) -> RustLocalSymbolFact {
    RustLocalSymbolFact {
        local_id: id.to_string(),
        kind: "function".to_string(),
        name: format!("name_{id}"),
        owner_local_id: owner.map(str::to_string),
        signature: "fn f()".to_string(),
        visibility: None,
        range: range(start, start + 4),
    }
}

fn facts(symbols: Vec<RustLocalSymbolFact>) -> RustFileFacts {
    let count = symbols.len();
    RustFileFacts {
        parse_quality: ParseQuality::Clean,
        symbols,
        imports: Vec::new(),
        references: Vec::new(),
        calls: Vec::new(),
        module_declarations: Vec::new(),
        attributes: Vec::new(),
        recovery_ranges: Vec::new(),
        limitations: Vec::new(),
        metrics: RustFileFactMetrics {
            nodes_visited: 10,
            max_nesting_depth: 2,
            facts_emitted: count,
            source_bytes: 100,
        },
    }
}

fn hex(bytes: &[u8]) -> String {
    bytes.iter().map(|b| format!("{b:02x}")).collect()
}

fn component(out: &mut Vec<u8>, value: &[u8]) {
    out.extend_from_slice(&(value.len() as u64).to_be_bytes());
    out.extend_from_slice(value);
}

fn key() -> FileFactKey {
    FileFactKey {
        language: "rust".to_string(),
        content_sha256: "a".repeat(64),
        grammar_version: "tree-sitter-rust@0.24.2".to_string(),
        query_digest: "b".repeat(64),
        adapter_version: "tree-sitter-rust-index/v1".to_string(),
        normalization_rules_digest: "c".repeat(64),
        schema_version: 1,
    }
}

#[test]
fn stored_text_rules() {
    assert_eq!(validate_text("ok", 10, "name"), Ok(()));
    assert_eq!(
        validate_text("", 10, "name"),
        Err("name is empty or exceeds 10 characters".to_string())
    );
    assert_eq!(
        validate_text("abcdef", 5, "kind"),
        Err("kind is empty or exceeds 5 characters".to_string())
    );
    assert_eq!(
        validate_text("a\nb", 5, "kind"),
        Err("kind contains control characters".to_string())
    );
}

#[test]
fn source_range_rules() {
    assert_eq!(validate_range(&range(0, 4), 4), Ok(()));
    assert!(validate_range(&range(0, 5), 4).is_err());
    let mut zero = range(0, 1);
    zero.start_line = 0;
    assert_eq!(
        validate_range(&zero, 10),
        Err("file facts contain an invalid source range".to_string())
    );
    let mut backwards = range(0, 1);
    backwards.start_line = 2;
    assert!(validate_range(&backwards, 10).is_err());
}

#[test]
fn segment_rules() {
    assert_eq!(validate_segments(&vec!["a".to_string()], "import"), Ok(()));
    let many = vec!["x".to_string(); 257];
    assert_eq!(
        validate_segments(&many, "import"),
        Err("import segment count exceeds 256".to_string())
    );
}

#[test]
fn canonical_form_sorts_and_is_stable_on_sorted_input() {
    let unsorted = facts(vec![symbol("b", 20, None), symbol("a", 0, None)]);
    let canonical = canonical_file_facts(unsorted);
    assert_eq!(canonical.symbols[0].local_id, "a");
    assert_eq!(canonical.symbols[1].local_id, "b");
    let again = canonical_file_facts(canonical.clone());
    assert_eq!(again, canonical);
}

#[test]
fn canonical_form_drops_repeated_ranges_and_limitations() {
    let mut f = facts(Vec::new());
    f.recovery_ranges = vec![range(5, 6), range(0, 1), range(5, 6)];
    f.limitations = vec!["z".to_string(), "a".to_string(), "z".to_string()];
    let canonical = canonical_file_facts(f);
    assert_eq!(canonical.recovery_ranges, vec![range(0, 1), range(5, 6)]);
    assert_eq!(canonical.limitations, vec!["a".to_string(), "z".to_string()]);
}

#[test]
fn valid_payload_passes() {
    let f = facts(vec![symbol("a", 0, None), symbol("b", 20, Some("a"))]);
    assert_eq!(validate_file_facts(&f), Ok(()));
}

#[test]
fn unsorted_payload_is_refused() {
    let f = facts(vec![symbol("b", 20, None), symbol("a", 0, None)]);
    assert_eq!(
        validate_file_facts(&f),
        Err("file facts vectors must be deterministically sorted".to_string())
    );
}

#[test]
fn wrong_fact_count_is_refused() {
    let mut f = facts(vec![symbol("a", 0, None)]);
    f.metrics.facts_emitted = 7;
    assert_eq!(
        validate_file_facts(&f),
        Err("file facts metric count does not match payload".to_string())
    );
}

#[test]
fn duplicate_local_ids_are_refused() {
    let f = facts(vec![symbol("a", 0, None), symbol("a", 20, None)]);
    assert_eq!(
        validate_file_facts(&f),
        Err("file facts contain duplicate local symbol ids".to_string())
    );
}

#[test]
fn missing_owner_is_refused() {
    let f = facts(vec![symbol("a", 0, Some("ghost"))]);
    assert_eq!(
        validate_file_facts(&f),
        Err("local symbol owner does not exist".to_string())
    );
}

#[test]
fn too_many_limitations_are_refused() {
    let mut f = facts(Vec::new());
    f.limitations = (0..1001).map(|i| format!("code-{i:05}")).collect();
    assert_eq!(
        validate_file_facts(&f),
        Err("file facts limitation count exceeds 1000".to_string())
    );
}

#[test]
fn key_digest_hashes_length_prefixed_components() {
    let k = key();
    let mut message = Vec::new();
    component(&mut message, b"file-facts/v1");
    component(&mut message, k.language.as_bytes());
    component(&mut message, k.content_sha256.as_bytes());
    component(&mut message, k.grammar_version.as_bytes());
    component(&mut message, k.query_digest.as_bytes());
    component(&mut message, k.adapter_version.as_bytes());
    component(&mut message, k.normalization_rules_digest.as_bytes());
    component(&mut message, &k.schema_version.to_be_bytes());
    let expected = hex(&Sha256::digest(&message));
    assert_eq!(file_fact_key_digest(&k), Ok(expected));
}

#[test]
fn invalid_key_has_no_digest() {
    let mut k = key();
    k.query_digest = "nothex".to_string();
    assert!(file_fact_key_digest(&k).is_err());
}

#[test]
fn payload_digest_is_sha256() {
    assert_eq!(
        payload_digest(b"abc"),
        "ba7816bf8f01cfea414140de5dae2223b00361a396177a9cb410ff61f20015ad"
    );
}

#[test]
fn rows_root_hashes_groups_in_order() {
    let rows = CanonicalGraphRows {
        identity: "{\"id\":1}".to_string(),
        completeness: "\"complete\"".to_string(),
        files: vec!["f1".to_string(), "f2".to_string()],
        modules: Vec::new(),
        symbols: vec!["s".to_string()],
        edges: Vec::new(),
        limitations: Vec::new(),
    };
    let mut message = Vec::new();
    component(&mut message, b"repository-graph-application-root/v1");
    component(&mut message, rows.identity.as_bytes());
    component(&mut message, rows.completeness.as_bytes());
    for group in [&rows.files, &rows.modules, &rows.symbols, &rows.edges, &rows.limitations] {
        component(&mut message, &(group.len() as u64).to_be_bytes());
        for row in group {
            component(&mut message, row.as_bytes());
        }
    }
    let expected = hex(&Sha256::digest(&message));
    assert_eq!(graph_rows_root(&rows), expected);
    let mut hasher = GraphRowsRootHasher::new(&rows.identity, &rows.completeness);
    for group in [&rows.files, &rows.modules, &rows.symbols, &rows.edges, &rows.limitations] {
        hasher.start_group(group.len());
        for row in group {
            hasher.push_row(row);
        }
    }
    assert_eq!(hasher.finish(), expected);
}
