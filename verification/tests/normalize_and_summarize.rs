use collect_diff_context::contracts::{Confidence, EdgeKind, ParseQuality, SourceRange, SummaryKind};
use collect_diff_context::normalizer::{merge_normalized_units, normalize_unit, NormalizedUnitFacts};
use collect_diff_context::rust_syntax::{RustSymbolFact, RustSyntaxOutput};
use collect_diff_context::summarizer::summarize_unit;

fn line_range(start_line: u32, end_line: u32, start_byte: usize, end_byte: usize) -> SourceRange {
    SourceRange {
        start_line,
        start_column: 1,
        end_line,
        end_column: 2,
        start_byte,
        end_byte,
    }
}

fn symbol(kind: &str, name: &str, visibility: Option<&str>, line: u32) -> RustSymbolFact {
    RustSymbolFact {
        kind: kind.to_string(),
        name: name.to_string(),
        owner: None,
        signature: format!("fn {name}()"),
        visibility: visibility.map(|v| v.to_string()),
        range: line_range(line, line + 2, (line as usize) * 10, (line as usize) * 10 + 20),
    }
}

fn syntax_output(quality: ParseQuality) -> RustSyntaxOutput {
    RustSyntaxOutput {
        parse_quality: quality,
        error_node_count: 0,
        missing_node_count: 0,
        affected_ranges: Vec::new(),
        overlapping_changed_symbols: Vec::new(),
        changed_symbols: vec![
            symbol("function", "exported", Some("pub"), 1),
            symbol("function", "hidden", None, 5),
        ],
        imports: Vec::new(),
        calls: Vec::new(),
        macros: Vec::new(),
        attributes: Vec::new(),
        nodes_visited: 10,
        max_nesting_depth: 3,
        limitation_codes: Vec::new(),
    }
}

fn normalized(quality: ParseQuality) -> NormalizedUnitFacts {
    let output = syntax_output(quality);
    normalize_unit("src/lib.rs", "rust", "syntax-provider", "text-provider", Some(&output), None)
}

#[test]
fn normalize_unit_keeps_symbol_fields_and_sets_confidence_by_quality() {
    let unit = normalized(ParseQuality::Clean);
    assert_eq!(unit.path, "src/lib.rs");
    assert_eq!(unit.changed_symbols.len(), 2);
    for s in &unit.changed_symbols {
        assert_eq!(s.confidence, Confidence::High);
        assert_eq!(s.kind, "function");
        assert_eq!(s.path, "src/lib.rs");
        assert_eq!(s.language, "rust");
    }
    let names: Vec<&str> = unit.changed_symbols.iter().map(|s| s.name.as_str()).collect();
    assert!(names.contains(&"exported"));
    assert!(names.contains(&"hidden"));
    let recovered = normalized(ParseQuality::Recovered);
    assert!(recovered.changed_symbols.iter().all(|s| s.confidence == Confidence::Medium));
    let degraded = normalized(ParseQuality::Degraded);
    assert!(degraded.changed_symbols.iter().all(|s| s.confidence == Confidence::Low));
}

#[test]
fn normalize_unit_defines_every_symbol_and_exports_only_public_ones() {
    let unit = normalized(ParseQuality::Clean);
    let defines = unit.impact_edges.iter().filter(|e| e.kind == EdgeKind::Defines).count();
    let exports: Vec<_> = unit.impact_edges.iter().filter(|e| e.kind == EdgeKind::Exports).collect();
    assert_eq!(defines, 2);
    assert_eq!(exports.len(), 1);
    let exported = unit.changed_symbols.iter().find(|s| s.name == "exported").unwrap();
    assert_eq!(exports[0].to_symbol.as_deref(), Some(exported.symbol_id.as_str()));
    for pair in unit.impact_edges.windows(2) {
        assert!(pair[0].edge_id < pair[1].edge_id);
    }
}

#[test]
fn merging_one_normalized_unit_gives_it_back() {
    let unit = normalized(ParseQuality::Recovered);
    let merged = merge_normalized_units("src/lib.rs", vec![unit.clone()]);
    assert_eq!(merged, unit);
}

#[test]
fn merging_keeps_the_more_confident_record() {
    let clean = normalized(ParseQuality::Clean);
    let degraded = normalized(ParseQuality::Degraded);
    let merged = merge_normalized_units("src/lib.rs", vec![degraded.clone(), clean.clone()]);
    assert_eq!(merged.changed_symbols.len(), 2);
    assert!(merged.changed_symbols.iter().all(|s| s.confidence == Confidence::High));
    assert_eq!(merged.impact_edges.len(), clean.impact_edges.len());
}

#[test]
fn summarize_unit_gives_public_symbols_an_interface_summary() {
    let unit = normalized(ParseQuality::Clean);
    let summaries = summarize_unit(&unit, None);
    let interface: Vec<_> =
        summaries.iter().filter(|s| s.summary_kind == SummaryKind::InterfaceChange).collect();
    assert_eq!(interface.len(), 1);
    let exported = unit.changed_symbols.iter().find(|s| s.name == "exported").unwrap();
    assert_eq!(interface[0].symbol_id.as_deref(), Some(exported.symbol_id.as_str()));
    assert_eq!(interface[0].evidence_fact_ids, vec![exported.symbol_id.clone()]);
    assert_eq!(interface[0].message, "Public function exported changed.");
}

#[test]
fn summarize_unit_of_an_empty_unit_is_empty() {
    let unit = NormalizedUnitFacts {
        path: "src/lib.rs".to_string(),
        changed_symbols: Vec::new(),
        impact_edges: Vec::new(),
        facts: Vec::new(),
    };
    assert!(summarize_unit(&unit, None).is_empty());
}
