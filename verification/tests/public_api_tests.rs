use loregrep::json::JsonValue;
use loregrep::{LoreGrep, LoreGrepBuilder, LoreGrepError, LoreResult, ScanResult, ToolResult,
    ToolSchema, ToolStep, VERSION};

#[test]
fn test_public_api_exports() {
    let _version: &str = VERSION;

    let builder: LoreGrepBuilder = LoreGrep::builder();
    let _loregrep: LoreResult<LoreGrep> = builder.build();

    let _tools: Vec<ToolSchema> = LoreGrep::get_tool_definitions();

    let _error: LoreGrepError = LoreGrepError::NotScanned;
}

#[test]
fn test_builder_configuration() {
    let builder = LoreGrep::builder()
        .with_rust_analyzer()
        .max_files(1000)
        .cache_ttl(300)
        .include_patterns(vec!["**/*.rs".to_string()])
        .exclude_patterns(vec!["**/target/**".to_string()])
        .max_file_size(1024 * 1024)
        .max_depth(10)
        .follow_symlinks(false);

    let loregrep = builder.build();
    assert!(loregrep.is_ok());
}

#[test]
fn test_tool_definitions_structure() {
    let tools = LoreGrep::get_tool_definitions();
    assert!(!tools.is_empty());

    let tool_names: Vec<&String> = tools.iter().map(|t| &t.name).collect();
    assert!(tool_names.contains(&&"search_functions".to_string()));
    assert!(tool_names.contains(&&"search_structs".to_string()));
    assert!(tool_names.contains(&&"analyze_file".to_string()));
    assert!(tool_names.contains(&&"get_dependencies".to_string()));
    assert!(tool_names.contains(&&"find_callers".to_string()));
    assert!(tool_names.contains(&&"get_repository_tree".to_string()));

    for tool in &tools {
        assert!(!tool.name.is_empty());
        assert!(!tool.description.is_empty());
        assert!(tool.input_schema.is_object());
    }
}

#[test]
fn test_version_constant() {
    assert!(!VERSION.is_empty());
    assert!(VERSION.starts_with("0."));
}

#[test]
fn test_error_types() {
    let error = LoreGrepError::NotScanned;
    match error {
        LoreGrepError::NotScanned => {},
        _ => panic!("Unexpected error type"),
    }

    let error = LoreGrepError::ToolError("test".to_string());
    match error {
        LoreGrepError::ToolError(msg) => assert_eq!(msg, "test"),
        _ => panic!("Unexpected error type"),
    }
}

#[test]
fn test_result_types() {
    let success_result: LoreResult<i32> = Ok(42);
    assert!(success_result.is_ok());

    let error_result: LoreResult<i32> = Err(LoreGrepError::NotScanned);
    assert!(error_result.is_err());
}

#[test]
fn public_api_integration_test_tool_result_creation() {
    let success = ToolResult {
        success: true,
        data: JsonValue::Obj(vec![(
            "test".to_string(),
            JsonValue::Str("value".to_string()),
        )]),
        error: None,
    };
    assert!(success.success);
    match success.data.get("test") {
        Some(v) => assert_eq!(v.as_str().unwrap(), "value"),
        None => panic!("missing member"),
    }

    let error = ToolResult {
        success: false,
        data: JsonValue::Obj(vec![]),
        error: Some("test error".to_string()),
    };
    assert!(!error.success);
    assert_eq!(error.error.as_ref().unwrap(), "test error");
}

#[test]
fn ai_tools_test_tool_result_creation() {
    let success_result = ToolResult::success(JsonValue::Obj(vec![(
        "key".to_string(),
        JsonValue::Str("value".to_string()),
    )]));
    assert!(success_result.success);
    assert_eq!(
        success_result.data.get("key").unwrap().as_str().unwrap(),
        "value"
    );
    assert!(success_result.error.is_none());

    let error_result = ToolResult::error("Test error".to_string());
    assert!(!error_result.success);
    assert!(error_result.error.is_some());
    assert_eq!(error_result.error.unwrap(), "Test error");
    assert!(error_result.data.is_object());
    assert!(error_result.data.get("anything").is_none());

    let error_with_data = ToolResult::error_with_data(JsonValue::Obj(vec![(
        "error_code".to_string(),
        JsonValue::Int(404),
    )]));
    assert!(!error_with_data.success);
    assert!(error_with_data.error.is_none());
    assert_eq!(
        error_with_data.data.get("error_code").unwrap().as_i64().unwrap(),
        404
    );
}

#[test]
fn test_scan_result_structure() {
    let scan_result = ScanResult {
        files_scanned: 10,
        functions_found: 25,
        structs_found: 5,
        duration_ms: 1500,
        languages: vec!["rust".to_string()],
    };

    assert_eq!(scan_result.files_scanned, 10);
    assert_eq!(scan_result.functions_found, 25);
    assert_eq!(scan_result.structs_found, 5);
    assert_eq!(scan_result.duration_ms, 1500);
    assert!(scan_result.languages.contains(&"rust".to_string()));
}

#[test]
fn test_tool_schema_structure() {
    let schema = ToolSchema {
        name: "test_tool".to_string(),
        description: "A test tool".to_string(),
        input_schema: JsonValue::Obj(vec![
            ("type".to_string(), JsonValue::Str("object".to_string())),
            (
                "properties".to_string(),
                JsonValue::Obj(vec![(
                    "param".to_string(),
                    JsonValue::Obj(vec![(
                        "type".to_string(),
                        JsonValue::Str("string".to_string()),
                    )]),
                )]),
            ),
        ]),
    };

    assert_eq!(schema.name, "test_tool");
    assert_eq!(schema.description, "A test tool");
    assert!(schema.input_schema.is_object());
}

#[test]
fn test_execute_tool_interface() {
    let loregrep = LoreGrep::builder().build().unwrap();

    let result = loregrep.execute_tool("invalid_tool", &JsonValue::Obj(vec![]));
    match result {
        ToolStep::Done(tool_result) => {
            assert!(!tool_result.success);
            assert!(tool_result.error.is_some());
        },
        ToolStep::NeedsFile { .. } => panic!("unexpected file request"),
    }

    let result = loregrep.execute_tool("get_repository_tree", &JsonValue::Obj(vec![]));
    match result {
        ToolStep::Done(tool_result) => {
            assert!(tool_result.success);
        },
        ToolStep::NeedsFile { .. } => panic!("unexpected file request"),
    }
}
