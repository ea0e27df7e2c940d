use collect_diff_context::budget::{BudgetTracker, ImpactBudget};
use collect_diff_context::candidate::RepoPath;
use collect_diff_context::contracts::UnitStatus;
use collect_diff_context::index_budget::{IndexBudget, IndexBudgetTracker};
use collect_diff_context::rust_syntax::append_index_facts;
use collect_diff_context::project_model::{
    collect_packages, record_workspace_limitations, ParsedManifest,
};
use collect_diff_context::project_model::{
    add_discovered_roots, add_package_roots, build_script_enabled, crate_name, crate_name_from_path,
    is_cargo_manifest, join_package_path, manifest_root, CargoManifestModel, CargoPackageModel,
    CargoTargetModel, RustPackageModel, TomlScalar,
};
use collect_diff_context::text_adapter::{TextAdapter, TextFactKind};
use collect_diff_context::text_scan::{has_nul_in_head, split_text, text_lines, TextConfiguration};

fn path(p: &str) -> RepoPath {
    RepoPath::new(p.to_string()).unwrap()
}

fn tracker() -> BudgetTracker {
    BudgetTracker::new(ImpactBudget::fast_defaults())
}

fn empty_configuration() -> TextConfiguration {
    TextConfiguration { queries: Vec::new(), test_hints: Vec::new(), limitation_codes: Vec::new() }
}

#[test]
fn text_lines_and_split_follow_std() {
    assert_eq!(text_lines("a\nb\r\n\nc"), vec!["a", "b", "", "c"]);
    assert_eq!(text_lines("a\r\n"), vec!["a"]);
    assert_eq!(text_lines("a\nb\r"), vec!["a", "b\r"]);
    assert_eq!(text_lines(""), Vec::<String>::new());
    assert_eq!(split_text("a\tb\t\tc", '\t'), vec!["a", "b", "", "c"]);
    assert_eq!(split_text("", '\t'), vec![""]);
}

#[test]
fn nul_detection_looks_at_the_head_only() {
    assert!(has_nul_in_head(b"ab\0c"));
    assert!(!has_nul_in_head(b"plain text"));
    let mut late = vec![b'a'; 9000];
    late[8500] = 0;
    assert!(!has_nul_in_head(&late));
}

#[test]
fn load_configuration_reads_queries_and_hints() {
    let queries = b"# comment\nfoo\\d+\n(\n\n";
    let hints = b"rule-1\t\\.rs$\t\tunit\tnone\thigh\tRun the unit tests\nbroken line\n";
    let mut budget = tracker();
    let configuration =
        TextAdapter::load_configuration(Some(&queries[..]), Some(&hints[..]), &mut budget);
    assert_eq!(configuration.queries.len(), 1);
    assert_eq!(configuration.queries[0].rule_id, "context-query-002");
    assert_eq!(configuration.queries[0].pattern, "foo\\d+");
    assert_eq!(configuration.test_hints.len(), 1);
    let hint = &configuration.test_hints[0];
    assert_eq!(hint.rule_id, "rule-1");
    assert_eq!(hint.path_pattern.as_deref(), Some("\\.rs$"));
    assert_eq!(hint.content_pattern, None);
    assert_eq!(hint.test_kind, "unit");
    assert_eq!(hint.hint, "Run the unit tests");
    assert_eq!(
        configuration.limitation_codes,
        vec!["invalid-test-hint", "invalid-text-query", "text-query-scope-changed-files"]
    );
}

#[test]
fn load_configuration_refuses_binary_files() {
    let mut budget = tracker();
    let configuration =
        TextAdapter::load_configuration(Some(&b"a\0b"[..]), Some(&b"\0"[..]), &mut budget);
    assert!(configuration.queries.is_empty());
    assert!(configuration.test_hints.is_empty());
    assert_eq!(
        configuration.limitation_codes,
        vec!["binary-context-query-config", "binary-test-hint-config"]
    );
    let none = TextAdapter::load_configuration(None, None, &mut budget);
    assert!(none.limitation_codes.is_empty());
}

#[test]
fn scan_reports_configured_query_matches() {
    let mut budget = tracker();
    let configuration =
        TextAdapter::load_configuration(Some(&b"foo\\d+\n"[..]), None, &mut budget);
    let output = TextAdapter::scan(&path("notes/a.txt"), b"foo12 bar foo3", false, &configuration, &mut budget);
    assert_eq!(output.status, UnitStatus::Completed);
    let found: Vec<&str> = output
        .facts
        .iter()
        .filter(|f| f.kind == TextFactKind::ConfiguredQuery)
        .map(|f| f.match_text.as_str())
        .collect();
    assert_eq!(found, vec!["foo12", "foo3"]);
    assert!(output.facts.iter().all(|f| f.rule_id == "context-query-001"));
}

#[test]
fn scan_skips_binary_text() {
    let mut budget = tracker();
    let output = TextAdapter::scan(&path("a.bin"), b"x\0y", false, &empty_configuration(), &mut budget);
    assert_eq!(output.status, UnitStatus::Unsupported);
    assert!(output.facts.is_empty());
    assert_eq!(output.limitation_codes, vec!["binary-text-unavailable"]);
    let flagged = TextAdapter::scan(&path("a.txt"), b"plain", true, &empty_configuration(), &mut budget);
    assert_eq!(flagged.status, UnitStatus::Unsupported);
}

#[test]
fn scan_reads_toml_keys_and_markers() {
    let mut budget = tracker();
    let output = TextAdapter::scan(
        &path("Cargo.toml"),
        b"name = \"demo\"\nversion = \"1.0\"\n",
        false,
        &empty_configuration(),
        &mut budget,
    );
    let keys: Vec<&str> = output
        .facts
        .iter()
        .filter(|f| f.kind == TextFactKind::Configuration)
        .map(|f| f.rule_id.as_str())
        .collect();
    assert_eq!(keys, vec!["toml-key:name", "toml-key:version"]);

    let markers = TextAdapter::scan(
        &path("src/app.py"),
        b"use tokio;\nconnect to redis cache\n",
        false,
        &empty_configuration(),
        &mut budget,
    );
    assert!(markers.facts.iter().any(|f| f.kind == TextFactKind::Framework));
    assert!(markers.facts.iter().any(|f| f.kind == TextFactKind::Cache));
}

#[test]
fn scan_fires_matching_test_hints() {
    let mut budget = tracker();
    let configuration = TextAdapter::load_configuration(
        None,
        Some(&b"rule-1\t\\.rs$\t\tunit\tnone\thigh\tRun the unit tests\n"[..]),
        &mut budget,
    );
    let fired = TextAdapter::scan(&path("src/lib.rs"), b"fn main() {}", false, &configuration, &mut budget);
    assert!(fired
        .facts
        .iter()
        .any(|f| f.kind == TextFactKind::TestHint && f.match_text == "Run the unit tests"));
    let quiet = TextAdapter::scan(&path("README.md"), b"hello", false, &configuration, &mut budget);
    assert!(!quiet.facts.iter().any(|f| f.kind == TextFactKind::TestHint));
}

#[test]
fn crate_names_replace_dashes() {
    assert_eq!(crate_name("my-crate"), "my_crate");
    assert_eq!(crate_name_from_path("src/bin/run-tool.rs"), "run_tool");
    assert_eq!(crate_name_from_path("tests/it.rs"), "it");
    assert_eq!(crate_name_from_path("weird-name"), "weird_name");
}

#[test]
fn manifest_paths_and_roots() {
    assert!(is_cargo_manifest(&path("Cargo.toml")));
    assert!(is_cargo_manifest(&path("crates/a/Cargo.toml")));
    assert!(!is_cargo_manifest(&path("crates/a/NotCargo.toml")));
    assert_eq!(manifest_root(&path("Cargo.toml")).unwrap().as_str(), ".");
    assert_eq!(manifest_root(&path("crates/a/Cargo.toml")).unwrap().as_str(), "crates/a");
    assert_eq!(join_package_path(&path("."), "src/lib.rs").unwrap().as_str(), "src/lib.rs");
    assert_eq!(join_package_path(&path("crates/a"), "src/lib.rs").unwrap().as_str(), "crates/a/src/lib.rs");
    assert!(join_package_path(&path("crates/a"), "../b.rs").is_err());
}

#[test]
fn build_scripts_are_on_unless_disabled() {
    assert!(build_script_enabled(&TomlScalar::Text("build.rs".to_string())));
    assert!(build_script_enabled(&TomlScalar::Boolean(true)));
    assert!(!build_script_enabled(&TomlScalar::Boolean(false)));
}

#[test]
fn discovered_roots_are_the_direct_rust_files() {
    let package = RustPackageModel {
        package_name: "demo".to_string(),
        manifest_path: path("Cargo.toml"),
        package_root: path("."),
    };
    let candidates = vec![
        path("src/bin/one-tool.rs"),
        path("src/bin/nested/two.rs"),
        path("src/bin/readme.md"),
        path("src/lib.rs"),
    ];
    let mut roots = Vec::new();
    add_discovered_roots(&package, "src/bin/", "bin", &candidates, &mut roots);
    assert_eq!(roots.len(), 1);
    assert_eq!(roots[0].source_path.as_str(), "src/bin/one-tool.rs");
    assert_eq!(roots[0].crate_name, "one_tool");
    assert_eq!(roots[0].kind, "bin");
}

#[test]
fn package_roots_follow_cargo_conventions() {
    let package = RustPackageModel {
        package_name: "my-app".to_string(),
        manifest_path: path("Cargo.toml"),
        package_root: path("."),
    };
    let manifest = CargoManifestModel {
        package: Some(CargoPackageModel {
            name: Some(TomlScalar::Text("my-app".to_string())),
            build: None,
        }),
        lib: None,
        bins: Vec::new(),
        workspace_members: None,
    };
    let candidates = vec![path("src/lib.rs"), path("src/main.rs"), path("tests/smoke.rs")];
    let mut roots = Vec::new();
    let mut limitations = Vec::new();
    add_package_roots(&package, &manifest, &candidates, &mut roots, &mut limitations);
    let kinds: Vec<(&str, &str, &str)> = roots
        .iter()
        .map(|r| (r.kind.as_str(), r.source_path.as_str(), r.crate_name.as_str()))
        .collect();
    assert!(kinds.contains(&("lib", "src/lib.rs", "my_app")));
    assert!(kinds.contains(&("bin", "src/main.rs", "my_app")));
    assert!(kinds.contains(&("test", "tests/smoke.rs", "smoke")));

    let explicit = CargoManifestModel {
        package: None,
        lib: Some(CargoTargetModel {
            name: Some(TomlScalar::Text("core".to_string())),
            path: Some(TomlScalar::Other),
        }),
        bins: Vec::new(),
        workspace_members: None,
    };
    let mut roots = Vec::new();
    let mut limitations = Vec::new();
    add_package_roots(&package, &explicit, &candidates, &mut roots, &mut limitations);
    assert!(!roots.iter().any(|r| r.kind == "lib"));
    assert!(!limitations.is_empty());
}

#[test]
fn index_facts_stop_at_the_fact_budget() {
    let mut limits = IndexBudget::fast_defaults();
    limits.max_facts = 2;
    let mut budget = IndexBudgetTracker::new(limits);
    let mut target = vec![0u32];
    let mut limitations = Vec::new();
    assert!(!append_index_facts(&mut target, vec![1, 2, 3], &mut budget, &mut limitations));
    assert_eq!(target, vec![0, 1, 2]);
    assert_eq!(limitations, vec!["index-fact-budget-exhausted"]);
    assert!(append_index_facts(&mut target, Vec::new(), &mut budget, &mut limitations));
    assert!(!append_index_facts(&mut target, vec![9], &mut budget, &mut limitations));
    assert_eq!(target, vec![0, 1, 2]);
    assert_eq!(limitations, vec!["index-fact-budget-exhausted"]);
}

#[test]
fn packages_and_workspace_members_are_collected() {
    let parsed = vec![
        ParsedManifest {
            path: path("Cargo.toml"),
            root: path("."),
            manifest: CargoManifestModel {
                package: Some(CargoPackageModel {
                    name: Some(TomlScalar::Text("top-app".to_string())),
                    build: Some(TomlScalar::Text("build.rs".to_string())),
                }),
                lib: None,
                bins: Vec::new(),
                workspace_members: Some(vec![
                    TomlScalar::Text("crates/*".to_string()),
                    TomlScalar::Text("crates/missing".to_string()),
                ]),
            },
        },
        ParsedManifest {
            path: path("crates/b/Cargo.toml"),
            root: path("crates/b"),
            manifest: CargoManifestModel {
                package: Some(CargoPackageModel { name: Some(TomlScalar::Other), build: None }),
                lib: None,
                bins: Vec::new(),
                workspace_members: None,
            },
        },
    ];
    let manifest_paths = vec![path("Cargo.toml"), path("crates/b/Cargo.toml")];
    let mut limitations = Vec::new();
    record_workspace_limitations(&parsed, &manifest_paths, &mut limitations);
    assert_eq!(
        limitations,
        vec![
            "project-model-workspace-glob-unsupported:Cargo.toml",
            "project-model-workspace-member-missing:crates/missing/Cargo.toml",
        ]
    );
    let candidates = vec![path("src/lib.rs")];
    let mut limitations = Vec::new();
    let (packages, roots) = collect_packages(&parsed, &candidates, &mut limitations);
    assert_eq!(packages.len(), 1);
    assert_eq!(packages[0].package_name, "top-app");
    assert_eq!(roots.len(), 1);
    assert_eq!(roots[0].crate_name, "top_app");
    assert_eq!(
        limitations,
        vec![
            "project-model-build-script-ignored:Cargo.toml",
            "project-model-workspace-inheritance-unsupported:crates/b/Cargo.toml",
        ]
    );
}
