use loregrep::types::{
    ExportStatement, FunctionCall, FunctionSignature, ImportStatement, Parameter, StructSignature,
    TreeNode,
};
use loregrep::repo_map::RepoMap;

fn create_test_tree_node(name: &str, language: &str) -> TreeNode {
    let mut node = TreeNode::new(format!("/test/{}.rs", name), language.to_string());

    node.functions.push(
        FunctionSignature::new(format!("function_{}", name))
            .with_parameters(vec![
                Parameter::new("param1".to_string(), "i32".to_string()),
                Parameter::new("param2".to_string(), "String".to_string()),
            ])
            .with_return_type("Result<(), Error>".to_string())
            .with_visibility(true)
            .with_async(true),
    );

    node.structs
        .push(StructSignature::new(format!("Struct{}", name.to_uppercase())));

    node.imports
        .push(ImportStatement::new(format!("crate::{}", name)).with_external(false));

    node.exports.push(ExportStatement::new(format!("pub_{}", name)));

    node.function_calls.push(FunctionCall::new(
        format!("call_{}", name),
        node.file_path.clone(),
        42,
    ));

    node.content_hash = format!("hash_{}", name);
    node
}

#[test]
fn test_repo_map_creation() {
    let repo_map = RepoMap::new();
    assert_eq!(repo_map.get_all_files().len(), 0);
    assert_eq!(repo_map.get_metadata().total_files, 0);
    assert_eq!(repo_map.get_metadata().total_functions, 0);
}

#[test]
fn test_repo_map_with_limits() {
    let repo_map = RepoMap::new().with_max_files(5).with_cache_ttl(60);

    assert_eq!(repo_map.max_files, Some(5));
    assert_eq!(repo_map.cache_ttl_seconds, 60);
}

#[test]
fn test_add_file() {
    let mut repo_map = RepoMap::new();
    let node = create_test_tree_node("test1", "rust");
    let file_path = node.file_path.clone();

    let result = repo_map.add_file(node);
    assert!(result.is_ok());

    assert_eq!(repo_map.get_all_files().len(), 1);
    assert_eq!(repo_map.get_metadata().total_files, 1);
    assert_eq!(repo_map.get_metadata().total_functions, 1);
    assert_eq!(repo_map.get_metadata().total_structs, 1);

    let retrieved = repo_map.get_file(&file_path);
    assert!(retrieved.is_some());
    assert_eq!(retrieved.unwrap().file_path, file_path);
}

#[test]
fn test_add_multiple_files() {
    let mut repo_map = RepoMap::new();

    for i in 0..5 {
        let node = create_test_tree_node(&format!("test{}", i), "rust");
        let result = repo_map.add_file(node);
        assert!(result.is_ok());
    }

    assert_eq!(repo_map.get_all_files().len(), 5);
    assert_eq!(repo_map.get_metadata().total_files, 5);
    assert_eq!(repo_map.get_metadata().total_functions, 5);
    assert_eq!(repo_map.get_metadata().total_structs, 5);
}

#[test]
fn test_update_existing_file() {
    let mut repo_map = RepoMap::new();
    let mut node = create_test_tree_node("test", "rust");

    repo_map.add_file(node.clone()).unwrap();
    assert_eq!(repo_map.get_all_files().len(), 1);

    node.content_hash = "updated_hash".to_string();
    node.functions
        .push(FunctionSignature::new("new_function".to_string()));

    let file_path = node.file_path.clone();
    repo_map.add_file(node).unwrap();

    assert_eq!(repo_map.get_all_files().len(), 1);
    assert_eq!(repo_map.get_metadata().total_functions, 2);

    let retrieved = repo_map.get_file(&file_path).unwrap();
    assert_eq!(retrieved.content_hash, "updated_hash");
    assert_eq!(retrieved.functions.len(), 2);
}

#[test]
fn test_remove_file() {
    let mut repo_map = RepoMap::new();
    let node = create_test_tree_node("test", "rust");
    let file_path = node.file_path.clone();

    repo_map.add_file(node).unwrap();
    assert_eq!(repo_map.get_all_files().len(), 1);

    let result = repo_map.remove_file(&file_path);
    assert!(result.is_ok());
    assert!(result.unwrap());

    assert_eq!(repo_map.get_all_files().len(), 0);
    assert_eq!(repo_map.get_metadata().total_files, 0);
    assert!(repo_map.get_file(&file_path).is_none());

    let result = repo_map.remove_file("non_existent.rs");
    assert!(result.is_ok());
    assert!(!result.unwrap());
}

#[test]
fn test_max_files_limit() {
    let mut repo_map = RepoMap::new().with_max_files(2);

    for i in 0..2 {
        let node = create_test_tree_node(&format!("test{}", i), "rust");
        let result = repo_map.add_file(node);
        assert!(result.is_ok());
    }

    let node = create_test_tree_node("overflow", "rust");
    let result = repo_map.add_file(node);
    assert!(result.is_err());
    assert_eq!(repo_map.get_all_files().len(), 2);
}

#[test]
fn test_find_functions_exact_match() {
    let mut repo_map = RepoMap::new();
    let node = create_test_tree_node("test", "rust");
    repo_map.add_file(node).unwrap();

    let result = repo_map.find_functions("function_test");
    assert_eq!(result.items.len(), 1);
    assert_eq!(result.items[0].name, "function_test");
    assert!(result.query_duration_ms < 100);
}

#[test]
fn test_find_functions_pattern_match() {
    let mut repo_map = RepoMap::new();

    for i in 0..3 {
        let node = create_test_tree_node(&format!("test{}", i), "rust");
        repo_map.add_file(node).unwrap();
    }

    let result = repo_map.find_functions("function_");
    assert_eq!(result.items.len(), 3);

    let result = repo_map.find_functions("function_test1");
    assert_eq!(result.items.len(), 1);
    assert_eq!(result.items[0].name, "function_test1");
}

#[test]
fn test_find_structs() {
    let mut repo_map = RepoMap::new();
    let node = create_test_tree_node("example", "rust");
    repo_map.add_file(node).unwrap();

    let result = repo_map.find_structs("StructEXAMPLE");
    assert_eq!(result.items.len(), 1);
    assert_eq!(result.items[0].name, "StructEXAMPLE");
}

#[test]
fn test_get_files_by_language() {
    let mut repo_map = RepoMap::new();

    for i in 0..2 {
        let node = create_test_tree_node(&format!("rust{}", i), "rust");
        repo_map.add_file(node).unwrap();
    }

    for i in 0..3 {
        let mut node = create_test_tree_node(&format!("python{}", i), "python");
        node.file_path = format!("/test/python{}.py", i);
        repo_map.add_file(node).unwrap();
    }

    let rust_files = repo_map.get_files_by_language("rust");
    assert_eq!(rust_files.len(), 2);

    let python_files = repo_map.get_files_by_language("python");
    assert_eq!(python_files.len(), 3);

    let js_files = repo_map.get_files_by_language("javascript");
    assert_eq!(js_files.len(), 0);
}

#[test]
fn test_get_file_dependencies() {
    let mut repo_map = RepoMap::new();
    let node = create_test_tree_node("test", "rust");
    let file_path = node.file_path.clone();
    repo_map.add_file(node).unwrap();

    let dependencies = repo_map.get_file_dependencies(&file_path);
    assert_eq!(dependencies.len(), 1);
    assert_eq!(dependencies[0], "crate::test");
}

#[test]
fn test_find_function_callers() {
    let mut repo_map = RepoMap::new();
    let node = create_test_tree_node("test", "rust");
    repo_map.add_file(node).unwrap();

    let callers = repo_map.find_function_callers("call_test");
    assert_eq!(callers.len(), 1);
    assert_eq!(callers[0].function_name, "call_test");
    assert_eq!(callers[0].line_number, 42);
}

#[test]
fn test_get_changed_files() {
    let mut repo_map = RepoMap::new();
    let timestamp: u64 = 1000;

    let mut old_node = create_test_tree_node("old", "rust");
    old_node.last_modified = timestamp - 60;
    repo_map.add_file(old_node).unwrap();

    let mut new_node = create_test_tree_node("new", "rust");
    new_node.last_modified = timestamp + 60;
    repo_map.add_file(new_node).unwrap();

    let changed_files = repo_map.get_changed_files(timestamp);
    assert_eq!(changed_files.len(), 1);
    assert!(changed_files[0].file_path.contains("new"));
}

#[test]
fn test_fuzzy_search() {
    let mut repo_map = RepoMap::new();

    let mut node = create_test_tree_node("example", "rust");
    node.functions
        .push(FunctionSignature::new("calculate_hash".to_string()));
    node.functions
        .push(FunctionSignature::new("parse_content".to_string()));
    node.structs.push(StructSignature::new("Parser".to_string()));
    node.structs
        .push(StructSignature::new("Calculator".to_string()));
    repo_map.add_file(node).unwrap();

    let results = repo_map.fuzzy_search("calc", Some(10));
    assert!(!results.is_empty());

    let calc_results: Vec<_> = results
        .iter()
        .filter(|(name, _)| name.to_lowercase().contains("calc"))
        .collect();
    assert!(!calc_results.is_empty());
}

#[test]
fn test_memory_usage() {
    let mut repo_map = RepoMap::new();
    let initial_usage = repo_map.get_memory_usage();

    for i in 0..10 {
        let node = create_test_tree_node(&format!("test{}", i), "rust");
        repo_map.add_file(node).unwrap();
    }

    let after_usage = repo_map.get_memory_usage();
    assert!(after_usage > initial_usage);
    assert_eq!(repo_map.get_metadata().memory_usage_bytes, after_usage);
}

#[test]
fn test_query_cache() {
    let mut repo_map = RepoMap::new().with_cache_ttl(1);
    let node = create_test_tree_node("test", "rust");
    repo_map.add_file(node).unwrap();

    let result1 = repo_map.find_functions("function_test");
    assert_eq!(result1.items.len(), 1);

    repo_map.clear_cache();

    let result2 = repo_map.find_functions("function_test");
    assert_eq!(result2.items.len(), 1);
}

#[test]
fn test_metadata_updates() {
    let mut repo_map = RepoMap::new();

    let metadata = repo_map.get_metadata();
    assert_eq!(metadata.total_files, 0);
    assert_eq!(metadata.total_functions, 0);
    assert_eq!(metadata.total_structs, 0);
    assert!(metadata.languages.is_empty());

    let node = create_test_tree_node("test", "rust");
    repo_map.add_file(node).unwrap();

    let metadata = repo_map.get_metadata();
    assert_eq!(metadata.total_files, 1);
    assert_eq!(metadata.total_functions, 1);
    assert_eq!(metadata.total_structs, 1);
    assert_eq!(metadata.total_imports, 1);
    assert_eq!(metadata.total_exports, 1);
    assert!(metadata.languages.iter().any(|l| l == "rust"));
}

#[test]
fn test_complex_indexing_scenario() {
    let mut repo_map = RepoMap::new();

    for i in 0..5 {
        let mut node = create_test_tree_node(&format!("file{}", i), "rust");

        node.functions
            .push(FunctionSignature::new("common_function".to_string()));

        node.functions
            .push(FunctionSignature::new(format!("unique_func_{}", i)));

        repo_map.add_file(node).unwrap();
    }

    let results = repo_map.find_functions("common_function");
    assert_eq!(results.items.len(), 5);

    let results = repo_map.find_functions("unique_func_2");
    assert_eq!(results.items.len(), 1);

    repo_map.remove_file("/test/file2.rs").unwrap();

    let results = repo_map.find_functions("common_function");
    assert_eq!(results.items.len(), 4);

    let results = repo_map.find_functions("unique_func_2");
    assert_eq!(results.items.len(), 0);

    let results = repo_map.find_functions("unique_func_3");
    assert_eq!(results.items.len(), 1);
}

#[test]
fn test_pattern_matching() {
    let repo_map = RepoMap::new();

    assert!(repo_map.matches_pattern("test_function", "test_function"));

    assert!(repo_map.matches_pattern("TestFunction", "testfunction"));

    assert!(repo_map.matches_pattern("test_function_with_params", "function"));

    assert!(repo_map.matches_pattern("test_function", "test_.*"));

    assert!(!repo_map.matches_pattern("other_function", "test"));
}
