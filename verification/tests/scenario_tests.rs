use loregrep::analyzer;
use loregrep::json::JsonValue;
use loregrep::repo_map::RepoMap;
use loregrep::scanner::{IgnoreRule, ListingEntry, ScannerConfig};
use loregrep::types::{FunctionSignature, TreeNode};
use loregrep::{LoreGrep, ToolStep};

fn node_with_functions(path: &str, names: &[(&str, u32)]) -> TreeNode {
    let mut node = TreeNode::new(path.to_string(), "rust".to_string());
    for (name, line) in names {
        node.functions.push(
            FunctionSignature::new(name.to_string()).with_location(*line, *line),
        );
    }
    node
}

#[test]
fn single_file_indexing() {
    let source = "pub fn foo(x: i32) -> i32 { x + 1 }\nfn bar() { foo(2); }\nstruct S { v: i32 }\n";
    let mut engine = LoreGrep::builder().build().unwrap();
    let files = vec![("root/a.rs".to_string(), source.to_string())];
    let scan = engine.scan_contents(&files).unwrap();
    assert_eq!(scan.files_scanned, 1);

    let foo = engine.map.find_functions("foo");
    assert_eq!(foo.items.len(), 1);
    assert!(foo.items[0].is_public);

    let callers = engine.map.find_function_callers("foo");
    assert_eq!(callers.len(), 1);
    assert!(callers[0].file_path.ends_with("a.rs"));
    assert_eq!(callers[0].caller_function.as_deref(), Some("bar"));

    let structs = engine.map.find_structs("S");
    assert_eq!(structs.items.len(), 1);
}

#[test]
fn analyzer_extracts_signatures() {
    let source = "pub async fn run(cfg: Config, n: usize) -> Result<(), Error> { helper(n); }\nfn helper(n: usize) {}\npub struct Config { pub name: String, size: usize }\nuse std::collections::HashMap;\n";
    let node = analyzer::analyze(source, "src/lib.rs", "rust").unwrap();
    assert_eq!(node.language, "rust");
    assert_eq!(node.functions.len(), 2);
    let run = &node.functions[0];
    assert_eq!(run.name, "run");
    assert!(run.is_public);
    assert!(run.is_async);
    assert_eq!(run.parameters.len(), 2);
    assert_eq!(run.parameters[0].name, "cfg");
    assert_eq!(run.parameters[0].param_type, "Config");
    assert_eq!(run.return_type.as_deref(), Some("Result<(), Error>"));
    assert_eq!(run.start_line, 1);

    assert_eq!(node.structs.len(), 1);
    let cfg = &node.structs[0];
    assert_eq!(cfg.name, "Config");
    assert!(cfg.is_public);
    assert_eq!(cfg.fields.len(), 2);
    assert_eq!(cfg.fields[0].name, "name");
    assert!(cfg.fields[0].is_public);
    assert!(!cfg.fields[1].is_public);

    assert_eq!(node.imports.len(), 1);
    assert_eq!(node.imports[0].import_path, "std::collections::HashMap");
    assert!(node.imports[0].is_external);

    assert!(node.exports.iter().any(|e| e.exported_item == "run"));
    assert!(node.exports.iter().any(|e| e.exported_item == "Config"));

    assert_eq!(node.function_calls.len(), 1);
    assert_eq!(node.function_calls[0].function_name, "helper");
    assert_eq!(node.function_calls[0].caller_function.as_deref(), Some("run"));
}

#[test]
fn analyzer_rejects_other_languages() {
    let err = analyzer::analyze("def f():\n  pass\n", "x.py", "python");
    assert!(err.is_err());
}

#[test]
fn pattern_tiers_order() {
    let mut map = RepoMap::new();
    map.add_file(node_with_functions("a.rs", &[("parse", 1), ("Parse", 5)]))
        .unwrap();
    map.add_file(node_with_functions("b.rs", &[("preparse", 2), ("reparse", 8)]))
        .unwrap();

    let items = map.find_functions_with_options("parse", 10, false);
    let names: Vec<&str> = items.iter().map(|f| f.name.as_str()).collect();
    assert_eq!(names, vec!["parse", "Parse", "preparse", "reparse"]);
}

#[test]
fn cache_invalidated_on_removal() {
    let mut map = RepoMap::new();
    map.add_file(node_with_functions("root/a.rs", &[("foo", 1)]))
        .unwrap();
    let hit = map.find_functions("foo");
    assert_eq!(hit.items.len(), 1);

    map.remove_file("root/a.rs").unwrap();
    let miss = map.find_functions("foo");
    assert_eq!(miss.items.len(), 0);
    assert_eq!(miss.total_matches, 0);
}

#[test]
fn limit_zero_returns_no_items_but_counts() {
    let mut map = RepoMap::new();
    map.add_file(node_with_functions("a.rs", &[("alpha", 1), ("alphabet", 2)]))
        .unwrap();

    let items = map.find_functions_with_options("alpha", 0, false);
    assert_eq!(items.len(), 0);
    let full = map.find_functions("alpha");
    assert_eq!(full.total_matches, 2);
}

#[test]
fn empty_pattern_returns_every_candidate() {
    let mut map = RepoMap::new();
    map.add_file(node_with_functions("a.rs", &[("one", 1), ("two", 2)]))
        .unwrap();
    map.add_file(node_with_functions("b.rs", &[("three", 1)]))
        .unwrap();

    let all = map.find_functions("");
    assert_eq!(all.items.len(), 3);

    let limited = map.find_functions_with_options("", 2, false);
    assert_eq!(limited.len(), 2);
}

#[test]
fn capacity_boundary_keeps_existing_records() {
    let mut map = RepoMap::new().with_max_files(2);
    map.add_file(node_with_functions("a.rs", &[("fa", 1)])).unwrap();
    map.add_file(node_with_functions("b.rs", &[("fb", 1)])).unwrap();

    let err = map.add_file(node_with_functions("c.rs", &[("fc", 1)]));
    assert!(err.is_err());
    match err {
        Err(e) => assert!(e.message().contains("Maximum file limit (2) reached")),
        Ok(_) => panic!("expected a capacity error"),
    }
    assert_eq!(map.file_count(), 2);
    assert_eq!(map.find_functions("fa").items.len(), 1);
    assert_eq!(map.find_functions("fb").items.len(), 1);

    let replaced = map.add_file(node_with_functions("a.rs", &[("fa2", 1)]));
    assert!(replaced.is_ok());
    assert_eq!(map.file_count(), 2);
}

#[test]
fn add_or_replace_is_idempotent() {
    let mut m1 = RepoMap::new();
    let node = node_with_functions("a.rs", &[("f", 1)]);
    m1.add_file(node.clone()).unwrap();
    let once_names: Vec<String> = m1
        .find_functions("")
        .items
        .iter()
        .map(|f| f.name.clone())
        .collect();
    let once_count = m1.file_count();

    m1.add_file(node).unwrap();
    let twice_names: Vec<String> = m1
        .find_functions("")
        .items
        .iter()
        .map(|f| f.name.clone())
        .collect();
    assert_eq!(once_names, twice_names);
    assert_eq!(once_count, m1.file_count());
}

#[test]
fn add_then_remove_restores_metadata() {
    let mut map = RepoMap::new();
    map.add_file(node_with_functions("base.rs", &[("stay", 1)]))
        .unwrap();
    let before = (
        map.get_metadata().total_files,
        map.get_metadata().total_functions,
        map.get_metadata().total_structs,
        map.get_metadata().total_imports,
        map.get_metadata().total_exports,
        map.get_metadata().memory_usage_bytes,
    );

    map.add_file(node_with_functions("fresh.rs", &[("go", 1)]))
        .unwrap();
    assert!(map.remove_file("fresh.rs").unwrap());

    let after = (
        map.get_metadata().total_files,
        map.get_metadata().total_functions,
        map.get_metadata().total_structs,
        map.get_metadata().total_imports,
        map.get_metadata().total_exports,
        map.get_metadata().memory_usage_bytes,
    );
    assert_eq!(before, after);
}

#[test]
fn queries_are_pure_functions_of_records() {
    let node = node_with_functions("a.rs", &[("f", 1)]);
    let mut m1 = RepoMap::new().with_cache_ttl(0);
    let mut m2 = RepoMap::new().with_max_files(9).with_cache_ttl(600);
    m1.add_file(node.clone()).unwrap();
    m2.add_file(node).unwrap();

    let r1: Vec<String> = m1.find_functions("f").items.iter().map(|f| f.name.clone()).collect();
    let r2: Vec<String> = m2.find_functions("f").items.iter().map(|f| f.name.clone()).collect();
    assert_eq!(r1, r2);
}

#[test]
fn oversize_files_are_filtered_not_scanned() {
    let config = ScannerConfig {
        include_patterns: vec![],
        exclude_patterns: vec![],
        max_file_size: 100,
        follow_symlinks: false,
        max_depth: None,
        respect_gitignore: true,
    };
    let entries = vec![
        ListingEntry { relative_path: "small.rs".to_string(), size: 50, is_symlink: false },
        ListingEntry { relative_path: "big.rs".to_string(), size: 5000, is_symlink: false },
    ];
    let manifest = loregrep::scanner::scan_listing(&config, &entries, &vec![]);
    assert_eq!(manifest.total_found, 1);
    assert_eq!(manifest.total_filtered, 1);
    assert_eq!(manifest.files[0].relative_path, "small.rs");
}

#[test]
fn scanner_output_is_deterministic() {
    let config = ScannerConfig::new();
    let entries = || {
        vec![
            ListingEntry { relative_path: "a.rs".to_string(), size: 10, is_symlink: false },
            ListingEntry { relative_path: "b/c.py".to_string(), size: 10, is_symlink: false },
            ListingEntry { relative_path: "d.txt".to_string(), size: 10, is_symlink: false },
        ]
    };
    let m1 = loregrep::scanner::scan_listing(&config, &entries(), &vec![]);
    let m2 = loregrep::scanner::scan_listing(&config, &entries(), &vec![]);
    let p1: Vec<&str> = m1.files.iter().map(|f| f.relative_path.as_str()).collect();
    let p2: Vec<&str> = m2.files.iter().map(|f| f.relative_path.as_str()).collect();
    assert_eq!(p1, p2);
    assert_eq!(p1, vec!["a.rs", "b/c.py"]);
    assert_eq!(m1.files[0].language, "rust");
    assert_eq!(m1.files[1].language, "python");
    assert_eq!(m1.total_filtered, m2.total_filtered);
}

#[test]
fn gitignore_rules_exclude_paths() {
    let config = ScannerConfig::new();
    let entries = vec![
        ListingEntry { relative_path: "kept.rs".to_string(), size: 10, is_symlink: false },
        ListingEntry { relative_path: "ignored/a.rs".to_string(), size: 10, is_symlink: false },
        ListingEntry { relative_path: "sub/ignored/b.rs".to_string(), size: 10, is_symlink: false },
    ];
    let rules = vec![IgnoreRule { pattern: "ignored/".to_string() }];
    let manifest = loregrep::scanner::scan_listing(&config, &entries, &rules);
    let paths: Vec<&str> = manifest.files.iter().map(|f| f.relative_path.as_str()).collect();
    assert_eq!(paths, vec!["kept.rs"]);

    let mut no_respect = ScannerConfig::new();
    no_respect.respect_gitignore = false;
    let manifest = loregrep::scanner::scan_listing(&no_respect, &entries, &rules);
    assert_eq!(manifest.total_found, 3);
}

#[test]
fn rescanning_unchanged_input_gives_identical_counts() {
    let source = "pub fn one() {}\npub fn two() { one(); }\nstruct T { x: u8 }\n";
    let files = vec![("root/m.rs".to_string(), source.to_string())];

    let mut engine = LoreGrep::builder().build().unwrap();
    let first = engine.scan_contents(&files).unwrap();
    let second = engine.scan_contents(&files).unwrap();
    assert_eq!(first.files_scanned, second.files_scanned);
    assert_eq!(first.functions_found, second.functions_found);
    assert_eq!(first.structs_found, second.structs_found);
    assert_eq!(first.languages, second.languages);
}

#[test]
fn scan_respects_max_files() {
    let mut engine = LoreGrep::builder().max_files(1).build().unwrap();
    let files = vec![
        ("a.rs".to_string(), "pub fn fa() {}".to_string()),
        ("b.rs".to_string(), "pub fn fb() {}".to_string()),
    ];
    let scan = engine.scan_contents(&files).unwrap();
    assert_eq!(scan.files_scanned, 1);
    assert_eq!(engine.map.file_count(), 1);
}

#[test]
fn unknown_tool_is_reported_not_thrown() {
    let engine = LoreGrep::builder().build().unwrap();
    let step = engine.execute_tool("does_not_exist", &JsonValue::Obj(vec![]));
    match step {
        ToolStep::Done(result) => {
            assert!(!result.success);
            assert_eq!(result.error.as_deref(), Some("Unknown tool: does_not_exist"));
        },
        ToolStep::NeedsFile { .. } => panic!("unexpected file request"),
    }
}

#[test]
fn analyze_file_reports_read_failures_in_data() {
    let engine = LoreGrep::builder().build().unwrap();
    let input = JsonValue::Obj(vec![(
        "file_path".to_string(),
        JsonValue::Str("/nope".to_string()),
    )]);
    let step = engine.execute_tool("analyze_file", &input);
    match step {
        ToolStep::NeedsFile { file_path, include_content } => {
            assert_eq!(file_path, "/nope");
            assert!(!include_content);
            let result = loregrep::resume_analyze_file(
                &file_path,
                include_content,
                Err("No such file or directory (os error 2)".to_string()),
            );
            assert!(!result.success);
            assert_eq!(
                result.data.get("status").unwrap().as_str().unwrap(),
                "error"
            );
            let msg = result.data.get("error").unwrap().as_str().unwrap();
            assert!(msg.starts_with("Failed to read file: "));
        },
        ToolStep::Done(_) => panic!("expected a file request"),
    }
}

#[test]
fn search_functions_tool_round_trip() {
    let mut engine = LoreGrep::builder().build().unwrap();
    let files = vec![(
        "root/a.rs".to_string(),
        "pub fn greet() {}\nfn greet_all() { greet(); }\n".to_string(),
    )];
    engine.scan_contents(&files).unwrap();

    let input = JsonValue::Obj(vec![
        ("pattern".to_string(), JsonValue::Str("greet".to_string())),
        ("limit".to_string(), JsonValue::Int(10)),
    ]);
    match engine.execute_tool("search_functions", &input) {
        ToolStep::Done(result) => {
            assert!(result.success);
            assert_eq!(
                result.data.get("status").unwrap().as_str().unwrap(),
                "success"
            );
            assert_eq!(result.data.get("count").unwrap().as_i64().unwrap(), 2);
        },
        ToolStep::NeedsFile { .. } => panic!("unexpected file request"),
    }

    let bad = JsonValue::Obj(vec![("limit".to_string(), JsonValue::Int(10))]);
    match engine.execute_tool("search_functions", &bad) {
        ToolStep::Done(result) => {
            assert!(!result.success);
            let msg = result.error.unwrap();
            assert!(msg.starts_with("Invalid search_functions input"));
        },
        ToolStep::NeedsFile { .. } => panic!("unexpected file request"),
    }
}

#[test]
fn repository_tree_groups_by_directory() {
    let mut engine = LoreGrep::builder().build().unwrap();
    let files = vec![
        ("src/a.rs".to_string(), "pub fn fa() {}".to_string()),
        ("src/b.rs".to_string(), "pub fn fb() {}".to_string()),
        ("other/c.rs".to_string(), "pub fn fc() {}".to_string()),
    ];
    engine.scan_contents(&files).unwrap();

    match engine.execute_tool("get_repository_tree", &JsonValue::Obj(vec![])) {
        ToolStep::Done(result) => {
            assert!(result.success);
            assert_eq!(result.data.get("total_files").unwrap().as_i64().unwrap(), 3);
            assert_eq!(
                result.data.get("total_directories").unwrap().as_i64().unwrap(),
                2
            );
            let tree = result.data.get("tree_structure").unwrap();
            assert!(tree.get("directories").is_some());
            assert!(tree.get("directory_stats").is_some());
            assert!(tree.get("file_details").is_some());
        },
        ToolStep::NeedsFile { .. } => panic!("unexpected file request"),
    }
}

#[test]
fn content_digest_is_stable_and_content_sensitive() {
    let a1 = analyzer::analyze("pub fn f() {}", "a.rs", "rust").unwrap();
    let a2 = analyzer::analyze("pub fn f() {}", "a.rs", "rust").unwrap();
    let b = analyzer::analyze("pub fn g() {}", "a.rs", "rust").unwrap();
    assert_eq!(a1.content_hash, a2.content_hash);
    assert_ne!(a1.content_hash, b.content_hash);
}

#[test]
fn get_dependencies_tool_lists_imports() {
    let mut engine = LoreGrep::builder().build().unwrap();
    let files = vec![(
        "src/lib.rs".to_string(),
        "use std::fmt::Debug;\nuse crate::inner::thing;\npub fn f() {}".to_string(),
    )];
    engine.scan_contents(&files).unwrap();

    let input = JsonValue::Obj(vec![(
        "file_path".to_string(),
        JsonValue::Str("src/lib.rs".to_string()),
    )]);
    match engine.execute_tool("get_dependencies", &input) {
        ToolStep::Done(result) => {
            assert!(result.success);
            match result.data.get("dependencies").unwrap() {
                JsonValue::Arr(deps) => assert_eq!(deps.len(), 2),
                _ => panic!("dependencies should be an array"),
            }
        },
        ToolStep::NeedsFile { .. } => panic!("unexpected file request"),
    }
}

#[test]
fn glob_and_include_patterns_filter() {
    let mut config = ScannerConfig::new();
    config.include_patterns = vec!["*.rs".to_string()];
    let entries = vec![
        ListingEntry { relative_path: "keep.rs".to_string(), size: 1, is_symlink: false },
        ListingEntry { relative_path: "drop.py".to_string(), size: 1, is_symlink: false },
    ];
    let manifest = loregrep::scanner::scan_listing(&config, &entries, &vec![]);
    assert_eq!(manifest.total_found, 1);
    assert_eq!(manifest.files[0].relative_path, "keep.rs");
}

#[test]
fn tree_node_rendering() {
    let source = "pub async fn run(cfg: Config) -> u32 { 1 }\npub struct Config { pub name: String }\n";
    let node = analyzer::analyze(source, "src/lib.rs", "rust").unwrap();

    let summary = node.summary();
    assert!(summary.starts_with("File: src/lib.rs | Language: rust | Functions: 1"));
    assert!(summary.ends_with("| Structs: 1 | Imports: 0 | Exports: 2"));

    let functions = node.format_functions();
    assert_eq!(functions, vec!["pub async fn run(cfg: Config) -> u32"]);

    let structs = node.format_structs();
    assert_eq!(structs, vec!["pub struct Config { pub name: String }"]);
}

#[test]
fn repo_map_summary_renders_counts() {
    let mut map = RepoMap::new();
    map.add_file(node_with_functions("a.rs", &[("f", 1), ("g", 2)]))
        .unwrap();
    let summary = map.summary();
    assert_eq!(
        summary,
        "Repository Map: 1 files | 2 functions | 0 structs | Languages: [rust]"
    );
}

#[test]
fn fuzzy_search_order_is_stable_across_calls() {
    let mut map = RepoMap::new();
    let mut node = TreeNode::new("a.rs".to_string(), "rust".to_string());
    node.functions.push(FunctionSignature::new("alpha".to_string()));
    node.functions.push(FunctionSignature::new("beta_alpha".to_string()));
    node.structs.push(loregrep::types::StructSignature::new("AlphaBox".to_string()));
    map.add_file(node).unwrap();

    let first = map.fuzzy_search("alpha", Some(10));
    let second = map.fuzzy_search("alpha", Some(10));
    assert_eq!(first, second);
    for w in first.windows(2) {
        assert!(w[0].1 >= w[1].1);
    }
}
