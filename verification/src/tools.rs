//! The tool surface: a fixed set of named, JSON-shaped operations over the
//! index, each answering a uniform `ToolResult`. Reading a file is the one
//! thing a tool cannot do itself: `execute_tool` hands that step back to
//! its caller and `resume_analyze_file` finishes from what was read.

use vstd::prelude::*;
use crate::json::{JsonValue, JsonView, json_views_of, json_entries_of};
use crate::types::{
    FunctionSignatureView, StructSignatureView, ParameterView, StructFieldView, TreeNodeView,
};
use crate::repo_map::{
    RepoMap, RepoMapMetadata, CallSiteView, found_functions, found_structs, callsites_for,
    take_up_to, import_paths_of, has_path, path_index, strings_view,
};
use crate::text::str_eq;

verus! {

broadcast use {crate::json::lemma_json_entries_push, crate::json::lemma_json_views_push};

/// Ghost view of a `ToolResult`.
#[verifier::ext_equal]
pub struct ToolResultView {
    pub success: bool,
    pub data: JsonView,
    pub error: Option<Seq<char>>,
}

/// The uniform answer of every tool call.
pub struct ToolResult {
    pub success: bool,
    pub data: JsonValue,
    pub error: Option<String>,
}

impl View for ToolResult {
    type V = ToolResultView;

    open spec fn view(&self) -> ToolResultView {
        ToolResultView {
            success: self.success,
            data: self.data.jv(),
            error: match self.error {
                Some(e) => Some(e@),
                None => None,
            },
        }
    }
}

impl ToolResult {
    /// A successful answer carrying `data`.
    pub fn success(data: JsonValue) -> (r: Self)
        ensures
            r@ == (ToolResultView { success: true, data: data.jv(), error: None }),
    {
        ToolResult { success: true, data, error: None }
    }

    /// A failed answer carrying only a message.
    pub fn error(message: String) -> (r: Self)
        ensures
            r@ == (ToolResultView {
                success: false,
                data: JsonView::Obj(Seq::empty()),
                error: Some(message@),
            }),
    {
        let r = ToolResult { success: false, data: JsonValue::Obj(Vec::new()), error: Some(message) };
        proof {
            assert(r.data.jv() =~= JsonView::Obj(Seq::empty()));
        }
        r
    }

    /// A failed answer whose detail lives in `data`.
    pub fn error_with_data(data: JsonValue) -> (r: Self)
        ensures
            r@ == (ToolResultView { success: false, data: data.jv(), error: None }),
    {
        ToolResult { success: false, data, error: None }
    }
}

/// Ghost view of a `ToolSchema`.
#[verifier::ext_equal]
pub struct ToolSchemaView {
    pub name: Seq<char>,
    pub description: Seq<char>,
    pub input_schema: JsonView,
}

/// What a tool is called, what it does, and the JSON shape of its input.
pub struct ToolSchema {
    pub name: String,
    pub description: String,
    pub input_schema: JsonValue,
}

impl View for ToolSchema {
    type V = ToolSchemaView;

    open spec fn view(&self) -> ToolSchemaView {
        ToolSchemaView {
            name: self.name@,
            description: self.description@,
            input_schema: self.input_schema.jv(),
        }
    }
}

/// What one `execute_tool` call decided: a finished answer, or the file
/// the caller must read before `resume_analyze_file` can finish.
pub enum ToolStep {
    Done(ToolResult),
    NeedsFile { file_path: String, include_content: bool },
}

/// Ghost view of a `ToolStep`.
#[verifier::ext_equal]
pub enum ToolStepView {
    Done(ToolResultView),
    NeedsFile { file_path: Seq<char>, include_content: bool },
}

impl View for ToolStep {
    type V = ToolStepView;

    open spec fn view(&self) -> ToolStepView {
        match self {
            ToolStep::Done(r) => ToolStepView::Done(r@),
            ToolStep::NeedsFile { file_path, include_content } => ToolStepView::NeedsFile {
                file_path: file_path@,
                include_content: *include_content,
            },
        }
    }
}

fn js(s: &str) -> (r: JsonValue)
    ensures
        r.jv() == JsonView::Str(s@),
{
    JsonValue::Str(s.to_owned())
}

fn obj1(k1: &str, v1: JsonValue) -> (r: JsonValue)
    ensures
        r.jv() == JsonView::Obj(seq![(k1@, v1.jv())]),
{
    let ghost g1 = v1.jv();
    let mut e: Vec<(String, JsonValue)> = Vec::new();
    proof {
        assert(json_entries_of(e@) =~= Seq::<(Seq<char>, JsonView)>::empty());
    }
    e.push((k1.to_owned(), v1));
    proof {
        assert(json_entries_of(e@) =~= seq![(k1@, g1)]);
    }
    JsonValue::Obj(e)
}

fn arr_from(items: Vec<JsonValue>) -> (r: JsonValue)
    ensures
        r.jv() == JsonView::Arr(json_views_of(items@)),
{
    JsonValue::Arr(items)
}

fn obj2(k1: &str, v1: JsonValue, k2: &str, v2: JsonValue) -> (r: JsonValue)
    ensures
        r.jv() == JsonView::Obj(seq![(k1@, v1.jv()), (k2@, v2.jv())]),
{
    let ghost g1 = v1.jv();
    let ghost g2 = v2.jv();
    let mut e: Vec<(String, JsonValue)> = Vec::new();
    proof {
        assert(json_entries_of(e@) =~= Seq::<(Seq<char>, JsonView)>::empty());
    }
    e.push((k1.to_owned(), v1));
    e.push((k2.to_owned(), v2));
    proof {
        assert(json_entries_of(e@) =~= seq![(k1@, g1), (k2@, g2)]);
    }
    JsonValue::Obj(e)
}

fn obj3(k1: &str, v1: JsonValue, k2: &str, v2: JsonValue, k3: &str, v3: JsonValue) -> (r:
    JsonValue)
    ensures
        r.jv() == JsonView::Obj(seq![(k1@, v1.jv()), (k2@, v2.jv()), (k3@, v3.jv())]),
{
    let ghost g1 = v1.jv();
    let ghost g2 = v2.jv();
    let ghost g3 = v3.jv();
    let mut e: Vec<(String, JsonValue)> = Vec::new();
    proof {
        assert(json_entries_of(e@) =~= Seq::<(Seq<char>, JsonView)>::empty());
    }
    e.push((k1.to_owned(), v1));
    e.push((k2.to_owned(), v2));
    e.push((k3.to_owned(), v3));
    proof {
        assert(json_entries_of(e@) =~= seq![(k1@, g1), (k2@, g2), (k3@, g3)]);
    }
    JsonValue::Obj(e)
}

fn obj4(
    k1: &str,
    v1: JsonValue,
    k2: &str,
    v2: JsonValue,
    k3: &str,
    v3: JsonValue,
    k4: &str,
    v4: JsonValue,
) -> (r: JsonValue)
    ensures
        r.jv() == JsonView::Obj(
            seq![(k1@, v1.jv()), (k2@, v2.jv()), (k3@, v3.jv()), (k4@, v4.jv())],
        ),
{
    let ghost g1 = v1.jv();
    let ghost g2 = v2.jv();
    let ghost g3 = v3.jv();
    let ghost g4 = v4.jv();
    let mut e: Vec<(String, JsonValue)> = Vec::new();
    proof {
        assert(json_entries_of(e@) =~= Seq::<(Seq<char>, JsonView)>::empty());
    }
    e.push((k1.to_owned(), v1));
    e.push((k2.to_owned(), v2));
    e.push((k3.to_owned(), v3));
    e.push((k4.to_owned(), v4));
    proof {
        assert(json_entries_of(e@) =~= seq![(k1@, g1), (k2@, g2), (k3@, g3), (k4@, g4)]);
    }
    JsonValue::Obj(e)
}

fn obj5(
    k1: &str,
    v1: JsonValue,
    k2: &str,
    v2: JsonValue,
    k3: &str,
    v3: JsonValue,
    k4: &str,
    v4: JsonValue,
    k5: &str,
    v5: JsonValue,
) -> (r: JsonValue)
    ensures
        r.jv() == JsonView::Obj(
            seq![
                (k1@, v1.jv()),
                (k2@, v2.jv()),
                (k3@, v3.jv()),
                (k4@, v4.jv()),
                (k5@, v5.jv()),
            ],
        ),
{
    let ghost g1 = v1.jv();
    let ghost g2 = v2.jv();
    let ghost g3 = v3.jv();
    let ghost g4 = v4.jv();
    let ghost g5 = v5.jv();
    let mut e: Vec<(String, JsonValue)> = Vec::new();
    proof {
        assert(json_entries_of(e@) =~= Seq::<(Seq<char>, JsonView)>::empty());
    }
    e.push((k1.to_owned(), v1));
    e.push((k2.to_owned(), v2));
    e.push((k3.to_owned(), v3));
    e.push((k4.to_owned(), v4));
    e.push((k5.to_owned(), v5));
    proof {
        assert(json_entries_of(e@) =~= seq![
            (k1@, g1),
            (k2@, g2),
            (k3@, g3),
            (k4@, g4),
            (k5@, g5),
        ]);
    }
    JsonValue::Obj(e)
}

fn obj7(
    k1: &str,
    v1: JsonValue,
    k2: &str,
    v2: JsonValue,
    k3: &str,
    v3: JsonValue,
    k4: &str,
    v4: JsonValue,
    k5: &str,
    v5: JsonValue,
    k6: &str,
    v6: JsonValue,
    k7: &str,
    v7: JsonValue,
) -> (r: JsonValue)
    ensures
        r.jv() == JsonView::Obj(
            seq![
                (k1@, v1.jv()),
                (k2@, v2.jv()),
                (k3@, v3.jv()),
                (k4@, v4.jv()),
                (k5@, v5.jv()),
                (k6@, v6.jv()),
                (k7@, v7.jv()),
            ],
        ),
{
    let ghost g1 = v1.jv();
    let ghost g2 = v2.jv();
    let ghost g3 = v3.jv();
    let ghost g4 = v4.jv();
    let ghost g5 = v5.jv();
    let ghost g6 = v6.jv();
    let ghost g7 = v7.jv();
    let mut e: Vec<(String, JsonValue)> = Vec::new();
    proof {
        assert(json_entries_of(e@) =~= Seq::<(Seq<char>, JsonView)>::empty());
    }
    e.push((k1.to_owned(), v1));
    e.push((k2.to_owned(), v2));
    e.push((k3.to_owned(), v3));
    e.push((k4.to_owned(), v4));
    e.push((k5.to_owned(), v5));
    e.push((k6.to_owned(), v6));
    e.push((k7.to_owned(), v7));
    proof {
        assert(json_entries_of(e@) =~= seq![
            (k1@, g1),
            (k2@, g2),
            (k3@, g3),
            (k4@, g4),
            (k5@, g5),
            (k6@, g6),
            (k7@, g7),
        ]);
    }
    JsonValue::Obj(e)
}

/// `n` clamped to the `i64` range.
pub open spec fn clamp_i64(n: int) -> i64 {
    if n > i64::MAX as int {
        i64::MAX
    } else if n < i64::MIN as int {
        i64::MIN
    } else {
        n as i64
    }
}

fn usize_to_i64(n: usize) -> (r: i64)
    ensures
        r == clamp_i64(n as int),
{
    if n as u64 > i64::MAX as u64 {
        i64::MAX
    } else {
        n as i64
    }
}

/// The JSON shape of one parameter.
pub open spec fn json_of_param(p: ParameterView) -> JsonView {
    JsonView::Obj(seq![("name"@, JsonView::Str(p.name)), ("type"@, JsonView::Str(p.param_type))])
}

/// The JSON shape of one function signature.
pub open spec fn json_of_function(f: FunctionSignatureView) -> JsonView {
    JsonView::Obj(
        seq![
            ("name"@, JsonView::Str(f.name)),
            (
                "parameters"@,
                JsonView::Arr(f.parameters.map_values(|p: ParameterView| json_of_param(p))),
            ),
            (
                "return_type"@,
                match f.return_type {
                    Some(t) => JsonView::Str(t),
                    None => JsonView::Null,
                },
            ),
            ("is_public"@, JsonView::Bool(f.is_public)),
            ("is_async"@, JsonView::Bool(f.is_async)),
            ("start_line"@, JsonView::Int(f.start_line as i64)),
            ("end_line"@, JsonView::Int(f.end_line as i64)),
        ],
    )
}

/// The JSON shape of one struct field.
pub open spec fn json_of_field(f: StructFieldView) -> JsonView {
    JsonView::Obj(
        seq![
            ("name"@, JsonView::Str(f.name)),
            ("type"@, JsonView::Str(f.field_type)),
            ("is_public"@, JsonView::Bool(f.is_public)),
        ],
    )
}

/// The JSON shape of one struct signature.
pub open spec fn json_of_struct(s: StructSignatureView) -> JsonView {
    JsonView::Obj(
        seq![
            ("name"@, JsonView::Str(s.name)),
            ("fields"@, JsonView::Arr(s.fields.map_values(|f: StructFieldView| json_of_field(f)))),
            ("is_public"@, JsonView::Bool(s.is_public)),
            ("is_tuple_struct"@, JsonView::Bool(s.is_tuple_struct)),
            ("start_line"@, JsonView::Int(s.start_line as i64)),
            ("end_line"@, JsonView::Int(s.end_line as i64)),
        ],
    )
}

/// The JSON shape of one call site.
pub open spec fn json_of_callsite(c: CallSiteView) -> JsonView {
    JsonView::Obj(
        seq![
            ("file_path"@, JsonView::Str(c.file_path)),
            ("line_number"@, JsonView::Int(c.line_number as i64)),
            ("column"@, JsonView::Int(c.column as i64)),
            ("function_name"@, JsonView::Str(c.function_name)),
            (
                "caller_function"@,
                match c.caller_function {
                    Some(n) => JsonView::Str(n),
                    None => JsonView::Null,
                },
            ),
        ],
    )
}

fn param_to_json(p: &crate::types::Parameter) -> (r: JsonValue)
    ensures
        r.jv() == json_of_param(p@),
{
    let r = obj2("name", js(p.name.as_str()), "type", js(p.param_type.as_str()));
    proof {
        assert(r.jv() =~~= json_of_param(p@));
    }
    r
}

#[verifier::rlimit(60)]
fn function_to_json(f: &crate::types::FunctionSignature) -> (r: JsonValue)
    ensures
        r.jv() == json_of_function(f@),
{
    let mut params: Vec<JsonValue> = Vec::new();
    let mut i: usize = 0;
    while i < f.parameters.len()
        invariant
            i <= f.parameters.len(),
            json_views_of(params@) =~= f@.parameters.subrange(0, i as int).map_values(
                |p: ParameterView| json_of_param(p),
            ),
        decreases f.parameters.len() - i,
    {
        params.push(param_to_json(&f.parameters[i]));
        proof {
            assert(f@.parameters[i as int] == f.parameters@[i as int]@);
            assert(json_views_of(params@) =~= f@.parameters.subrange(0, i + 1).map_values(
                |p: ParameterView| json_of_param(p),
            ));
        }
        i = i + 1;
    }
    proof {
        assert(f@.parameters.subrange(0, f@.parameters.len() as int) =~= f@.parameters);
    }
    let return_type = match &f.return_type {
        Some(t) => js(t.as_str()),
        None => JsonValue::Null,
    };
    let r = obj7(
        "name",
        js(f.name.as_str()),
        "parameters",
        arr_from(params),
        "return_type",
        return_type,
        "is_public",
        JsonValue::Bool(f.is_public),
        "is_async",
        JsonValue::Bool(f.is_async),
        "start_line",
        JsonValue::Int(f.start_line as i64),
        "end_line",
        JsonValue::Int(f.end_line as i64),
    );
    proof {
        let actual = r.jv()->Obj_0;
        let expected = json_of_function(f@)->Obj_0;
        assert(actual =~= expected);
        assert(r.jv() == json_of_function(f@));
    }
    r
}

fn field_to_json(f: &crate::types::StructField) -> (r: JsonValue)
    ensures
        r.jv() == json_of_field(f@),
{
    let r = obj3(
        "name",
        js(f.name.as_str()),
        "type",
        js(f.field_type.as_str()),
        "is_public",
        JsonValue::Bool(f.is_public),
    );
    proof {
        assert(r.jv() =~~= json_of_field(f@));
    }
    r
}

#[verifier::rlimit(60)]
fn struct_to_json(s: &crate::types::StructSignature) -> (r: JsonValue)
    ensures
        r.jv() == json_of_struct(s@),
{
    let mut fields: Vec<JsonValue> = Vec::new();
    let mut i: usize = 0;
    while i < s.fields.len()
        invariant
            i <= s.fields.len(),
            json_views_of(fields@) =~= s@.fields.subrange(0, i as int).map_values(
                |f: StructFieldView| json_of_field(f),
            ),
        decreases s.fields.len() - i,
    {
        fields.push(field_to_json(&s.fields[i]));
        proof {
            assert(s@.fields[i as int] == s.fields@[i as int]@);
            assert(json_views_of(fields@) =~= s@.fields.subrange(0, i + 1).map_values(
                |f: StructFieldView| json_of_field(f),
            ));
        }
        i = i + 1;
    }
    proof {
        assert(s@.fields.subrange(0, s@.fields.len() as int) =~= s@.fields);
    }
    let mut e: Vec<(String, JsonValue)> = Vec::new();
    let ghost gf = json_views_of(fields@);
    proof {
        assert(json_entries_of(e@) =~= Seq::<(Seq<char>, JsonView)>::empty());
    }
    e.push(("name".to_owned(), js(s.name.as_str())));
    proof {
        assert(json_entries_of(e@).len() == 1);
    }
    e.push(("fields".to_owned(), arr_from(fields)));
    proof {
        assert(json_entries_of(e@).len() == 2);
    }
    e.push(("is_public".to_owned(), JsonValue::Bool(s.is_public)));
    proof {
        assert(json_entries_of(e@).len() == 3);
    }
    e.push(("is_tuple_struct".to_owned(), JsonValue::Bool(s.is_tuple_struct)));
    proof {
        assert(json_entries_of(e@).len() == 4);
    }
    e.push(("start_line".to_owned(), JsonValue::Int(s.start_line as i64)));
    proof {
        assert(json_entries_of(e@).len() == 5);
    }
    e.push(("end_line".to_owned(), JsonValue::Int(s.end_line as i64)));
    proof {
        assert(json_entries_of(e@).len() == 6);
    }
    let r = JsonValue::Obj(e);
    proof {
        let actual = r.jv()->Obj_0;
        let expected = json_of_struct(s@)->Obj_0;
        assert(actual.len() == 6);
        assert(expected.len() == 6);
        assert(actual[0] == expected[0]);
        assert(actual[1] == expected[1]);
        assert(actual[2] == expected[2]);
        assert(actual[3] == expected[3]);
        assert(actual[4] == expected[4]);
        assert(actual[5] == expected[5]);
        assert(actual =~= expected);
        assert(r.jv() == json_of_struct(s@));
    }
    r
}

#[verifier::rlimit(60)]
fn callsite_to_json(c: &crate::repo_map::CallSite) -> (r: JsonValue)
    ensures
        r.jv() == json_of_callsite(c@),
{
    let caller = match &c.caller_function {
        Some(n) => js(n.as_str()),
        None => JsonValue::Null,
    };
    let r = obj5(
        "file_path",
        js(c.file_path.as_str()),
        "line_number",
        JsonValue::Int(c.line_number as i64),
        "column",
        JsonValue::Int(c.column as i64),
        "function_name",
        js(c.function_name.as_str()),
        "caller_function",
        caller,
    );
    proof {
        let actual = r.jv()->Obj_0;
        let expected = json_of_callsite(c@)->Obj_0;
        assert(actual =~= expected);
        assert(r.jv() == json_of_callsite(c@));
    }
    r
}

/// The six tool names, in the order the definitions list them.
pub open spec fn tool_names() -> Seq<Seq<char>> {
    seq![
        "search_functions"@,
        "search_structs"@,
        "analyze_file"@,
        "get_dependencies"@,
        "find_callers"@,
        "get_repository_tree"@,
    ]
}

fn schema_entry(name: &str, description: &str, input_schema: JsonValue) -> (r: ToolSchema)
    ensures
        r@.name == name@,
        r@.description == description@,
        r@.input_schema == input_schema.jv(),
{
    ToolSchema {
        name: name.to_owned(),
        description: description.to_owned(),
        input_schema,
    }
}

fn prop(kind_name: &str, description: &str) -> (r: JsonValue)
    ensures
        r.jv() == JsonView::Obj(
            seq![
                ("type"@, JsonView::Str(kind_name@)),
                ("description"@, JsonView::Str(description@)),
            ],
        ),
{
    obj2("type", js(kind_name), "description", js(description))
}

/// The input schemas are objects with a `type` of `"object"` and a
/// `properties` member.
pub open spec fn schema_shape_ok(s: JsonView) -> bool {
    &&& s.get("type"@) == Some(JsonView::Str("object"@))
    &&& s.get("properties"@) is Some
}

/// The static definitions of the six tools, in a fixed order, each with a
/// non-empty description and an object-shaped input schema.
pub fn get_tool_definitions() -> (r: Vec<ToolSchema>)
    ensures
        r@.len() == tool_names().len(),
        forall|i: int|
            0 <= i < r@.len() ==> (#[trigger] r@[i])@.name == tool_names()[i],
        forall|i: int| 0 <= i < r@.len() ==> (#[trigger] r@[i])@.description.len() > 0,
        forall|i: int| 0 <= i < r@.len() ==> schema_shape_ok((#[trigger] r@[i])@.input_schema),
{
    proof {
        reveal_strlit("type");
        reveal_strlit("properties");
        reveal_strlit("required");
        reveal_strlit("object");
        reveal_strlit("Search for functions by name pattern or regex across the indexed codebase");
        reveal_strlit("Search for structs by name pattern across the indexed codebase");
        reveal_strlit(
            "Analyze a specific file to extract its functions, structs, imports, and other code elements",
        );
        reveal_strlit("Get import dependencies for a file");
        reveal_strlit("Find all locations where a specific function is called across the codebase");
        reveal_strlit(
            "Get the repository tree structure with directory hierarchy and per-file statistics",
        );
    }
    let mut r: Vec<ToolSchema> = Vec::new();

    let s1 = obj3(
        "type",
        js("object"),
        "properties",
        obj3(
            "pattern",
            prop("string", "Search pattern or regex to match function names"),
            "limit",
            prop("integer", "Maximum number of results to return"),
            "language",
            prop("string", "Filter by programming language (optional)"),
        ),
        "required",
        arr_from(vec![js("pattern")]),
    );
    proof {
        lemma_schema_shape3(s1);
    }
    r.push(
        schema_entry(
            "search_functions",
            "Search for functions by name pattern or regex across the indexed codebase",
            s1,
        ),
    );

    let s2 = obj3(
        "type",
        js("object"),
        "properties",
        obj3(
            "pattern",
            prop("string", "Search pattern or regex to match struct names"),
            "limit",
            prop("integer", "Maximum number of results to return"),
            "language",
            prop("string", "Filter by programming language (optional)"),
        ),
        "required",
        arr_from(vec![js("pattern")]),
    );
    proof {
        lemma_schema_shape3(s2);
    }
    r.push(
        schema_entry(
            "search_structs",
            "Search for structs by name pattern across the indexed codebase",
            s2,
        ),
    );

    let s3 = obj3(
        "type",
        js("object"),
        "properties",
        obj2(
            "file_path",
            prop("string", "Path to the file to analyze"),
            "include_content",
            prop("boolean", "Whether to include file content in the response"),
        ),
        "required",
        arr_from(vec![js("file_path")]),
    );
    proof {
        lemma_schema_shape3(s3);
    }
    r.push(
        schema_entry(
            "analyze_file",
            "Analyze a specific file to extract its functions, structs, imports, and other code elements",
            s3,
        ),
    );

    let s4 = obj3(
        "type",
        js("object"),
        "properties",
        obj1(
            "file_path",
            prop("string", "Path to the file to list dependencies for"),
        ),
        "required",
        arr_from(vec![js("file_path")]),
    );
    proof {
        lemma_schema_shape3(s4);
    }
    r.push(
        schema_entry(
            "get_dependencies",
            "Get import dependencies for a file",
            s4,
        ),
    );

    let s5 = obj3(
        "type",
        js("object"),
        "properties",
        obj2(
            "function_name",
            prop("string", "Name of the function to find callers for"),
            "limit",
            prop("integer", "Maximum number of results to return"),
        ),
        "required",
        arr_from(vec![js("function_name")]),
    );
    proof {
        lemma_schema_shape3(s5);
    }
    r.push(
        schema_entry(
            "find_callers",
            "Find all locations where a specific function is called across the codebase",
            s5,
        ),
    );

    let s6 = obj2(
        "type",
        js("object"),
        "properties",
        obj2(
            "include_file_details",
            prop("boolean", "Whether to include detailed per-file counts"),
            "max_depth",
            prop("integer", "Maximum directory depth to include (0 for unlimited)"),
        ),
    );
    proof {
        lemma_schema_shape2(s6);
    }
    r.push(
        schema_entry(
            "get_repository_tree",
            "Get the repository tree structure with directory hierarchy and per-file statistics",
            s6,
        ),
    );
    proof {
        assert forall|i: int| 0 <= i < r@.len() implies (#[trigger] r@[i])@.name == tool_names()[i] by {
            assert(tool_names().len() == 6);
        }
    }
    r
}

proof fn lemma_schema_shape3(s: JsonValue)
    requires
        s.jv() matches JsonView::Obj(es) && es.len() == 3 && es[0].0 == "type"@ && es[0].1
            == JsonView::Str("object"@) && es[1].0 == "properties"@,
    ensures
        schema_shape_ok(s.jv()),
{
    proof_strlit_keys();
    let es = s.jv()->Obj_0;
    assert(crate::json::obj_lookup(es, "type"@) == Some(JsonView::Str("object"@)));
    assert(es.drop_first()[0] == es[1]);
    assert(crate::json::obj_lookup(es, "properties"@) == crate::json::obj_lookup(
        es.drop_first(),
        "properties"@,
    ));
    assert(crate::json::obj_lookup(es.drop_first(), "properties"@) is Some);
}

proof fn lemma_schema_shape2(s: JsonValue)
    requires
        s.jv() matches JsonView::Obj(es) && es.len() == 2 && es[0].0 == "type"@ && es[0].1
            == JsonView::Str("object"@) && es[1].0 == "properties"@,
    ensures
        schema_shape_ok(s.jv()),
{
    proof_strlit_keys();
    let es = s.jv()->Obj_0;
    assert(crate::json::obj_lookup(es, "type"@) == Some(JsonView::Str("object"@)));
    assert(es.drop_first()[0] == es[1]);
    assert(crate::json::obj_lookup(es, "properties"@) == crate::json::obj_lookup(
        es.drop_first(),
        "properties"@,
    ));
    assert(crate::json::obj_lookup(es.drop_first(), "properties"@) is Some);
}

proof fn proof_strlit_keys()
    ensures
        "type"@ != "properties"@,
{
    reveal_strlit("type");
    reveal_strlit("properties");
    assert("type"@.len() == 4);
    assert("properties"@.len() == 10);
}

} // verus!

verus! {

/// The message answered for an unknown tool name.
pub open spec fn unknown_tool_message(name: Seq<char>) -> Seq<char> {
    "Unknown tool: "@ + name
}

/// The message answered for input that fails a tool's schema.
pub open spec fn invalid_input_message(tool: Seq<char>) -> Seq<char> {
    "Invalid "@ + tool + " input: expected fields are missing or of the wrong type"@
}

/// A finished failing step carrying `msg`.
pub open spec fn error_step(msg: Seq<char>) -> ToolStepView {
    ToolStepView::Done(
        ToolResultView { success: false, data: JsonView::Obj(Seq::empty()), error: Some(msg) },
    )
}

/// A finished successful step carrying `data`.
pub open spec fn success_step(data: JsonView) -> ToolStepView {
    ToolStepView::Done(ToolResultView { success: true, data, error: None })
}

/// The limit a tool call uses: `default` when absent, the value when a
/// non-negative integer within `usize`, nothing otherwise.
pub open spec fn limit_from(input: JsonView, default_limit: int) -> Option<int> {
    match input.get("limit"@) {
        None => Some(default_limit),
        Some(v) => match v {
            JsonView::Int(n) => if 0 <= n && n as int <= usize::MAX as int {
                Some(n as int)
            } else {
                None
            },
            _ => None,
        },
    }
}

/// The `language` member may only be absent or a string.
pub open spec fn language_field_ok(input: JsonView) -> bool {
    match input.get("language"@) {
        None => true,
        Some(v) => v is Str,
    }
}

/// The payload of a successful function search.
pub open spec fn search_functions_data(
    files: Seq<TreeNodeView>,
    pattern: Seq<char>,
    limit: int,
) -> JsonView {
    let results = take_up_to(found_functions(files, pattern), limit).map_values(
        |f: FunctionSignatureView| json_of_function(f),
    );
    JsonView::Obj(
        seq![
            ("status"@, JsonView::Str("success"@)),
            ("pattern"@, JsonView::Str(pattern)),
            ("results"@, JsonView::Arr(results)),
            ("count"@, JsonView::Int(clamp_i64(results.len() as int))),
        ],
    )
}

/// The payload of a successful struct search.
pub open spec fn search_structs_data(
    files: Seq<TreeNodeView>,
    pattern: Seq<char>,
    limit: int,
) -> JsonView {
    let results = take_up_to(found_structs(files, pattern), limit).map_values(
        |s: StructSignatureView| json_of_struct(s),
    );
    JsonView::Obj(
        seq![
            ("status"@, JsonView::Str("success"@)),
            ("pattern"@, JsonView::Str(pattern)),
            ("results"@, JsonView::Arr(results)),
            ("count"@, JsonView::Int(clamp_i64(results.len() as int))),
        ],
    )
}

/// The payload of a successful caller search.
pub open spec fn find_callers_data(
    files: Seq<TreeNodeView>,
    name: Seq<char>,
    limit: int,
) -> JsonView {
    let results = take_up_to(callsites_for(files, name), limit).map_values(
        |c: CallSiteView| json_of_callsite(c),
    );
    JsonView::Obj(
        seq![
            ("status"@, JsonView::Str("success"@)),
            ("function_name"@, JsonView::Str(name)),
            ("callers"@, JsonView::Arr(results)),
            ("count"@, JsonView::Int(clamp_i64(results.len() as int))),
        ],
    )
}

/// The payload of a successful dependency lookup.
pub open spec fn dependencies_data(map: &RepoMap, path: Seq<char>) -> JsonView {
    let deps = if has_path(map@, path) {
        import_paths_of(map@[path_index(map@, path)].imports)
    } else {
        Seq::empty()
    };
    JsonView::Obj(
        seq![
            ("status"@, JsonView::Str("success"@)),
            ("file_path"@, JsonView::Str(path)),
            ("dependencies"@, JsonView::Arr(deps.map_values(|d: Seq<char>| JsonView::Str(d)))),
        ],
    )
}

/// What `execute_tool` answers for the search_functions tool.
pub open spec fn search_functions_step(files: Seq<TreeNodeView>, input: JsonView) -> ToolStepView {
    match input.get("pattern"@) {
        Some(p) => match p {
            JsonView::Str(pattern) => match limit_from(input, 20) {
                Some(l) => if language_field_ok(input) {
                    success_step(search_functions_data(files, pattern, l))
                } else {
                    error_step(invalid_input_message("search_functions"@))
                },
                None => error_step(invalid_input_message("search_functions"@)),
            },
            _ => error_step(invalid_input_message("search_functions"@)),
        },
        None => error_step(invalid_input_message("search_functions"@)),
    }
}

/// What `execute_tool` answers for the search_structs tool.
pub open spec fn search_structs_step(files: Seq<TreeNodeView>, input: JsonView) -> ToolStepView {
    match input.get("pattern"@) {
        Some(p) => match p {
            JsonView::Str(pattern) => match limit_from(input, 20) {
                Some(l) => if language_field_ok(input) {
                    success_step(search_structs_data(files, pattern, l))
                } else {
                    error_step(invalid_input_message("search_structs"@))
                },
                None => error_step(invalid_input_message("search_structs"@)),
            },
            _ => error_step(invalid_input_message("search_structs"@)),
        },
        None => error_step(invalid_input_message("search_structs"@)),
    }
}

/// What `execute_tool` answers for the find_callers tool.
pub open spec fn find_callers_step(files: Seq<TreeNodeView>, input: JsonView) -> ToolStepView {
    match input.get("function_name"@) {
        Some(p) => match p {
            JsonView::Str(name) => match limit_from(input, 50) {
                Some(l) => success_step(find_callers_data(files, name, l)),
                None => error_step(invalid_input_message("find_callers"@)),
            },
            _ => error_step(invalid_input_message("find_callers"@)),
        },
        None => error_step(invalid_input_message("find_callers"@)),
    }
}

/// What `execute_tool` answers for the get_dependencies tool.
pub open spec fn get_dependencies_step(map: &RepoMap, input: JsonView) -> ToolStepView {
    match input.get("file_path"@) {
        Some(p) => match p {
            JsonView::Str(path) => success_step(dependencies_data(map, path)),
            _ => error_step(invalid_input_message("get_dependencies"@)),
        },
        None => error_step(invalid_input_message("get_dependencies"@)),
    }
}

/// What `execute_tool` answers for the analyze_file tool: the read step
/// handed back to the caller.
pub open spec fn analyze_file_step(input: JsonView) -> ToolStepView {
    match input.get("file_path"@) {
        Some(p) => match p {
            JsonView::Str(path) => match input.get("include_content"@) {
                None => ToolStepView::NeedsFile { file_path: path, include_content: false },
                Some(v) => match v {
                    JsonView::Bool(b) => ToolStepView::NeedsFile {
                        file_path: path,
                        include_content: b,
                    },
                    _ => error_step(invalid_input_message("analyze_file"@)),
                },
            },
            _ => error_step(invalid_input_message("analyze_file"@)),
        },
        None => error_step(invalid_input_message("analyze_file"@)),
    }
}

fn invalid_input(tool: &str) -> (r: ToolResult)
    ensures
        r@ == (ToolResultView {
            success: false,
            data: JsonView::Obj(Seq::empty()),
            error: Some(invalid_input_message(tool@)),
        }),
{
    let mut msg = "Invalid ".to_owned();
    msg.append(tool);
    msg.append(" input: expected fields are missing or of the wrong type");
    proof {
        assert(msg@ =~= invalid_input_message(tool@));
    }
    ToolResult::error(msg)
}

fn read_limit(input: &JsonValue, default_limit: usize) -> (r: Option<usize>)
    ensures
        match r {
            Some(l) => limit_from(input.jv(), default_limit as int) == Some(l as int),
            None => limit_from(input.jv(), default_limit as int) is None,
        },
{
    match input.get("limit") {
        None => Some(default_limit),
        Some(v) => match v.as_i64() {
            Some(n) => {
                if n >= 0 && n as u64 <= usize::MAX as u64 {
                    Some(n as usize)
                } else {
                    None
                }
            },
            None => None,
        },
    }
}

fn language_field_check(input: &JsonValue) -> (r: bool)
    ensures
        r == language_field_ok(input.jv()),
{
    match input.get("language") {
        None => true,
        Some(v) => match v.as_str() {
            Some(_) => true,
            None => false,
        },
    }
}

fn search_functions_tool(map: &RepoMap, input: &JsonValue) -> (r: ToolResult)
    ensures
        ToolStepView::Done(r@) == search_functions_step(map@, input.jv()),
{
    let pattern = match input.get("pattern") {
        Some(v) => match v.as_str() {
            Some(s) => s.clone(),
            None => {
                return invalid_input("search_functions");
            },
        },
        None => {
            return invalid_input("search_functions");
        },
    };
    let limit = match read_limit(input, 20) {
        Some(l) => l,
        None => {
            return invalid_input("search_functions");
        },
    };
    if !language_field_check(input) {
        return invalid_input("search_functions");
    }
    let items = map.find_functions_with_options(pattern.as_str(), limit, false);
    let ghost itemsv = take_up_to(found_functions(map@, pattern@), limit as int);
    let mut results: Vec<JsonValue> = Vec::new();
    let mut i: usize = 0;
    while i < items.len()
        invariant
            i <= items.len(),
            crate::types::fns_view(items@) == itemsv,
            json_views_of(results@) =~= itemsv.subrange(0, i as int).map_values(
                |f: FunctionSignatureView| json_of_function(f),
            ),
        decreases items.len() - i,
    {
        proof {
            assert(items@[i as int]@ == itemsv[i as int]);
        }
        results.push(function_to_json(&items[i]));
        proof {
            assert(json_views_of(results@) =~= itemsv.subrange(0, i + 1).map_values(
                |f: FunctionSignatureView| json_of_function(f),
            ));
        }
        i = i + 1;
    }
    proof {
        assert(itemsv.subrange(0, itemsv.len() as int) =~= itemsv);
        crate::json::lemma_json_views_len(results@);
    }
    let count = usize_to_i64(results.len());
    let data = obj4(
        "status",
        js("success"),
        "pattern",
        js(pattern.as_str()),
        "results",
        arr_from(results),
        "count",
        JsonValue::Int(count),
    );
    let r = ToolResult::success(data);
    proof {
        assert(r@.data->Obj_0 =~= search_functions_data(map@, pattern@, limit as int)->Obj_0);
        assert(r@.data == search_functions_data(map@, pattern@, limit as int));
    }
    r
}


fn search_structs_tool(map: &RepoMap, input: &JsonValue) -> (r: ToolResult)
    ensures
        ToolStepView::Done(r@) == search_structs_step(map@, input.jv()),
{
    let pattern = match input.get("pattern") {
        Some(v) => match v.as_str() {
            Some(s) => s.clone(),
            None => {
                return invalid_input("search_structs");
            },
        },
        None => {
            return invalid_input("search_structs");
        },
    };
    let limit = match read_limit(input, 20) {
        Some(l) => l,
        None => {
            return invalid_input("search_structs");
        },
    };
    if !language_field_check(input) {
        return invalid_input("search_structs");
    }
    let items = map.find_structs_with_options(pattern.as_str(), limit, false);
    let ghost itemsv = take_up_to(found_structs(map@, pattern@), limit as int);
    let mut results: Vec<JsonValue> = Vec::new();
    let mut i: usize = 0;
    while i < items.len()
        invariant
            i <= items.len(),
            crate::types::structs_view(items@) == itemsv,
            json_views_of(results@) =~= itemsv.subrange(0, i as int).map_values(
                |s: StructSignatureView| json_of_struct(s),
            ),
        decreases items.len() - i,
    {
        proof {
            assert(items@[i as int]@ == itemsv[i as int]);
        }
        results.push(struct_to_json(&items[i]));
        proof {
            assert(json_views_of(results@) =~= itemsv.subrange(0, i + 1).map_values(
                |s: StructSignatureView| json_of_struct(s),
            ));
        }
        i = i + 1;
    }
    proof {
        assert(itemsv.subrange(0, itemsv.len() as int) =~= itemsv);
        crate::json::lemma_json_views_len(results@);
    }
    let count = usize_to_i64(results.len());
    let data = obj4(
        "status",
        js("success"),
        "pattern",
        js(pattern.as_str()),
        "results",
        arr_from(results),
        "count",
        JsonValue::Int(count),
    );
    let r = ToolResult::success(data);
    proof {
        assert(r@.data->Obj_0 =~= search_structs_data(map@, pattern@, limit as int)->Obj_0);
        assert(r@.data == search_structs_data(map@, pattern@, limit as int));
    }
    r
}

fn find_callers_tool(map: &RepoMap, input: &JsonValue) -> (r: ToolResult)
    ensures
        ToolStepView::Done(r@) == find_callers_step(map@, input.jv()),
{
    let name = match input.get("function_name") {
        Some(v) => match v.as_str() {
            Some(s) => s.clone(),
            None => {
                return invalid_input("find_callers");
            },
        },
        None => {
            return invalid_input("find_callers");
        },
    };
    let limit = match read_limit(input, 50) {
        Some(l) => l,
        None => {
            return invalid_input("find_callers");
        },
    };
    let mut callers = map.find_function_callers(name.as_str());
    let ghost full = callsites_for(map@, name@);
    callers.truncate(limit);
    let ghost itemsv = take_up_to(full, limit as int);
    proof {
        assert(crate::repo_map::callsites_view(callers@) =~= itemsv);
    }
    let mut results: Vec<JsonValue> = Vec::new();
    let mut i: usize = 0;
    while i < callers.len()
        invariant
            i <= callers.len(),
            crate::repo_map::callsites_view(callers@) == itemsv,
            json_views_of(results@) =~= itemsv.subrange(0, i as int).map_values(
                |c: CallSiteView| json_of_callsite(c),
            ),
        decreases callers.len() - i,
    {
        proof {
            assert(callers@[i as int]@ == itemsv[i as int]);
        }
        results.push(callsite_to_json(&callers[i]));
        proof {
            assert(json_views_of(results@) =~= itemsv.subrange(0, i + 1).map_values(
                |c: CallSiteView| json_of_callsite(c),
            ));
        }
        i = i + 1;
    }
    proof {
        assert(itemsv.subrange(0, itemsv.len() as int) =~= itemsv);
        crate::json::lemma_json_views_len(results@);
    }
    let count = usize_to_i64(results.len());
    let data = obj4(
        "status",
        js("success"),
        "function_name",
        js(name.as_str()),
        "callers",
        arr_from(results),
        "count",
        JsonValue::Int(count),
    );
    let r = ToolResult::success(data);
    proof {
        assert(r@.data->Obj_0 =~= find_callers_data(map@, name@, limit as int)->Obj_0);
        assert(r@.data == find_callers_data(map@, name@, limit as int));
    }
    r
}

fn get_dependencies_tool(map: &RepoMap, input: &JsonValue) -> (r: ToolResult)
    ensures
        ToolStepView::Done(r@) == get_dependencies_step(map, input.jv()),
{
    let path = match input.get("file_path") {
        Some(v) => match v.as_str() {
            Some(s) => s.clone(),
            None => {
                return invalid_input("get_dependencies");
            },
        },
        None => {
            return invalid_input("get_dependencies");
        },
    };
    let deps = map.get_file_dependencies(path.as_str());
    let ghost depsv = if has_path(map@, path@) {
        import_paths_of(map@[path_index(map@, path@)].imports)
    } else {
        Seq::<Seq<char>>::empty()
    };
    proof {
        assert(strings_view(deps@) =~= depsv);
    }
    let mut results: Vec<JsonValue> = Vec::new();
    let mut i: usize = 0;
    while i < deps.len()
        invariant
            i <= deps.len(),
            strings_view(deps@) == depsv,
            json_views_of(results@) =~= depsv.subrange(0, i as int).map_values(
                |d: Seq<char>| JsonView::Str(d),
            ),
        decreases deps.len() - i,
    {
        proof {
            assert(deps@[i as int]@ == depsv[i as int]);
        }
        results.push(js(deps[i].as_str()));
        proof {
            assert(json_views_of(results@) =~= depsv.subrange(0, i + 1).map_values(
                |d: Seq<char>| JsonView::Str(d),
            ));
        }
        i = i + 1;
    }
    proof {
        assert(depsv.subrange(0, depsv.len() as int) =~= depsv);
    }
    let data = obj3(
        "status",
        js("success"),
        "file_path",
        js(path.as_str()),
        "dependencies",
        arr_from(results),
    );
    let r = ToolResult::success(data);
    proof {
        assert(r@.data->Obj_0 =~= dependencies_data(map, path@)->Obj_0);
        assert(r@.data == dependencies_data(map, path@));
    }
    r
}

fn analyze_file_tool(input: &JsonValue) -> (r: ToolStep)
    ensures
        r@ == analyze_file_step(input.jv()),
{
    let path = match input.get("file_path") {
        Some(v) => match v.as_str() {
            Some(s) => s.clone(),
            None => {
                return ToolStep::Done(invalid_input("analyze_file"));
            },
        },
        None => {
            return ToolStep::Done(invalid_input("analyze_file"));
        },
    };
    let include_content = match input.get("include_content") {
        None => false,
        Some(v) => match v.as_bool() {
            Some(b) => b,
            None => {
                return ToolStep::Done(invalid_input("analyze_file"));
            },
        },
    };
    ToolStep::NeedsFile { file_path: path, include_content }
}

} // verus!

verus! {

/// The directory part of a path: the text before the last slash, empty
/// when there is none.
pub open spec fn parent_dir(path: Seq<char>) -> Seq<char> {
    let i = crate::analyzer::last_char_at(path, '/');
    if i < 0 {
        Seq::empty()
    } else {
        path.subrange(0, i)
    }
}

/// The file part of a path: the text after the last slash.
pub open spec fn file_name_of(path: Seq<char>) -> Seq<char> {
    crate::analyzer::after_last(path, '/')
}

/// The index of the first group keyed `dir`, or -1.
pub open spec fn key_index(gs: Seq<(Seq<char>, Seq<Seq<char>>)>, dir: Seq<char>) -> int
    decreases gs.len(),
{
    if gs.len() == 0 {
        -1
    } else if gs[0].0 == dir {
        0
    } else {
        let r = key_index(gs.drop_first(), dir);
        if r < 0 {
            -1
        } else {
            r + 1
        }
    }
}

/// `gs` with `name` appended under `dir`: to the first group of that key,
/// or as a new group at the end.
pub open spec fn add_to_groups(
    gs: Seq<(Seq<char>, Seq<Seq<char>>)>,
    dir: Seq<char>,
    name: Seq<char>,
) -> Seq<(Seq<char>, Seq<Seq<char>>)> {
    let i = key_index(gs, dir);
    if i < 0 {
        gs.push((dir, seq![name]))
    } else {
        gs.update(i, (dir, gs[i].1.push(name)))
    }
}

/// The records grouped by directory, keys in first-appearance order and
/// file names in record order.
pub open spec fn groups_of(files: Seq<TreeNodeView>) -> Seq<(Seq<char>, Seq<Seq<char>>)>
    decreases files.len(),
{
    if files.len() == 0 {
        Seq::empty()
    } else {
        add_to_groups(
            groups_of(files.drop_last()),
            parent_dir(files.last().file_path),
            file_name_of(files.last().file_path),
        )
    }
}

/// The estimated line count of one record.
pub open spec fn est_lines_of(t: TreeNodeView) -> int {
    ((t.functions.len() * 10 + t.structs.len() * 5) % 0x100000000) as int
}

/// The summed line estimate of the records under `dir`.
pub open spec fn dir_est(files: Seq<TreeNodeView>, dir: Seq<char>) -> int
    decreases files.len(),
{
    if files.len() == 0 {
        0
    } else {
        dir_est(files.drop_last(), dir) + if parent_dir(files.last().file_path) == dir {
            est_lines_of(files.last())
        } else {
            0
        }
    }
}

/// The per-file detail entry of the tree payload.
pub open spec fn json_of_file_detail(t: TreeNodeView) -> JsonView {
    JsonView::Obj(
        seq![
            ("path"@, JsonView::Str(t.file_path)),
            ("language"@, JsonView::Str(t.language)),
            ("functions"@, JsonView::Int(clamp_i64(t.functions.len() as int))),
            ("structs"@, JsonView::Int(clamp_i64(t.structs.len() as int))),
            ("imports"@, JsonView::Int(clamp_i64(t.imports.len() as int))),
            ("exports"@, JsonView::Int(clamp_i64(t.exports.len() as int))),
            ("estimated_line_count"@, JsonView::Int(clamp_i64(est_lines_of(t)))),
        ],
    )
}

/// The aggregate metadata as JSON.
pub open spec fn json_of_metadata(m: &RepoMapMetadata) -> JsonView {
    JsonView::Obj(
        seq![
            ("total_files"@, JsonView::Int(clamp_i64(m.total_files as int))),
            ("total_functions"@, JsonView::Int(clamp_i64(m.total_functions as int))),
            ("total_structs"@, JsonView::Int(clamp_i64(m.total_structs as int))),
            ("total_imports"@, JsonView::Int(clamp_i64(m.total_imports as int))),
            ("total_exports"@, JsonView::Int(clamp_i64(m.total_exports as int))),
            (
                "languages"@,
                JsonView::Arr(
                    strings_view(m.languages@).map_values(|l: Seq<char>| JsonView::Str(l)),
                ),
            ),
            ("last_updated"@, JsonView::Int(clamp_i64(m.last_updated as int))),
            ("memory_usage_bytes"@, JsonView::Int(clamp_i64(m.memory_usage_bytes as int))),
            ("cache_hits"@, JsonView::Int(clamp_i64(m.cache_hits as int))),
            ("cache_misses"@, JsonView::Int(clamp_i64(m.cache_misses as int))),
        ],
    )
}

/// The `directories` member: each directory's file names.
pub open spec fn directories_json(gs: Seq<(Seq<char>, Seq<Seq<char>>)>) -> JsonView {
    JsonView::Obj(
        gs.map_values(
            |g: (Seq<char>, Seq<Seq<char>>)|
                (g.0, JsonView::Arr(g.1.map_values(|n: Seq<char>| JsonView::Str(n)))),
        ),
    )
}

/// The `directory_stats` member: per directory, its file count and summed
/// line estimate.
pub open spec fn directory_stats_json(
    gs: Seq<(Seq<char>, Seq<Seq<char>>)>,
    files: Seq<TreeNodeView>,
) -> JsonView {
    JsonView::Obj(
        gs.map_values(
            |g: (Seq<char>, Seq<Seq<char>>)|
                (
                    g.0,
                    JsonView::Arr(
                        seq![
                            JsonView::Int(clamp_i64(g.1.len() as int)),
                            JsonView::Int(clamp_i64(dir_est(files, g.0))),
                        ],
                    ),
                ),
        ),
    )
}

/// The `tree_structure` member, with per-file details when asked for.
pub open spec fn tree_structure_json(files: Seq<TreeNodeView>, include_details: bool) -> JsonView {
    let gs = groups_of(files);
    let base = seq![
        ("directories"@, directories_json(gs)),
        ("directory_stats"@, directory_stats_json(gs, files)),
    ];
    if include_details {
        JsonView::Obj(
            base.push(
                (
                    "file_details"@,
                    JsonView::Arr(files.map_values(|t: TreeNodeView| json_of_file_detail(t))),
                ),
            ),
        )
    } else {
        JsonView::Obj(base)
    }
}

/// The payload of a successful tree query.
pub open spec fn tree_data(map: &RepoMap, include_details: bool) -> JsonView {
    JsonView::Obj(
        seq![
            ("status"@, JsonView::Str("success"@)),
            ("total_files"@, JsonView::Int(clamp_i64(map@.len() as int))),
            ("total_directories"@, JsonView::Int(clamp_i64(groups_of(map@).len() as int))),
            ("metadata"@, json_of_metadata(&map.metadata)),
            ("tree_structure"@, tree_structure_json(map@, include_details)),
        ],
    )
}

/// What `execute_tool` answers for the get_repository_tree tool.
pub open spec fn repository_tree_step(map: &RepoMap, input: JsonView) -> ToolStepView {
    let details_ok = match input.get("include_file_details"@) {
        None => true,
        Some(v) => v is Bool,
    };
    let depth_ok = match input.get("max_depth"@) {
        None => true,
        Some(v) => v is Int,
    };
    if !details_ok || !depth_ok {
        error_step(invalid_input_message("get_repository_tree"@))
    } else {
        let include_details = match input.get("include_file_details"@) {
            Some(v) => v->Bool_0,
            None => true,
        };
        success_step(tree_data(map, include_details))
    }
}

fn parent_dir_str(path: &str) -> (r: String)
    ensures
        r@ == parent_dir(path@),
{
    match crate::analyzer::find_last_char(path, '/') {
        Some(i) => {
            let r = path.substring_char(0, i).to_owned();
            proof {
                assert(r@ =~= parent_dir(path@));
            }
            r
        },
        None => {
            let r = String::new();
            proof {
                assert(r@ =~= parent_dir(path@));
            }
            r
        },
    }
}

fn file_name_str(path: &str) -> (r: String)
    ensures
        r@ == file_name_of(path@),
{
    let n = path.unicode_len();
    match crate::analyzer::find_last_char(path, '/') {
        Some(i) => {
            let r = path.substring_char(i + 1, n).to_owned();
            proof {
                assert(r@ =~= file_name_of(path@));
            }
            r
        },
        None => path.to_owned(),
    }
}

/// The views of the exec grouping.
pub open spec fn groups_view_of(gs: Seq<(String, Vec<String>)>) -> Seq<(Seq<char>, Seq<Seq<char>>)> {
    gs.map_values(|g: (String, Vec<String>)| (g.0@, strings_view(g.1@)))
}

proof fn lemma_key_index_of_scan(gs: Seq<(Seq<char>, Seq<Seq<char>>)>, dir: Seq<char>, i: int)
    requires
        0 <= i < gs.len(),
        gs[i].0 == dir,
        forall|j: int| 0 <= j < i ==> gs[j].0 != dir,
    ensures
        key_index(gs, dir) == i,
    decreases gs.len(),
{
    if i > 0 {
        assert(gs.drop_first()[i - 1] == gs[i]);
        assert forall|j: int| 0 <= j < i - 1 implies gs.drop_first()[j].0 != dir by {
            assert(gs.drop_first()[j] == gs[j + 1]);
        }
        lemma_key_index_of_scan(gs.drop_first(), dir, i - 1);
    }
}

proof fn lemma_key_index_none(gs: Seq<(Seq<char>, Seq<Seq<char>>)>, dir: Seq<char>)
    requires
        forall|j: int| 0 <= j < gs.len() ==> gs[j].0 != dir,
    ensures
        key_index(gs, dir) < 0,
    decreases gs.len(),
{
    if gs.len() > 0 {
        assert forall|j: int| 0 <= j < gs.drop_first().len() implies gs.drop_first()[j].0
            != dir by {
            assert(gs.drop_first()[j] == gs[j + 1]);
        }
        lemma_key_index_none(gs.drop_first(), dir);
    }
}

fn build_groups(map: &RepoMap) -> (r: Vec<(String, Vec<String>)>)
    ensures
        groups_view_of(r@) == groups_of(map@),
{
    let mut groups: Vec<(String, Vec<String>)> = Vec::new();
    let mut i: usize = 0;
    while i < map.files.len()
        invariant
            i <= map.files.len(),
            groups_view_of(groups@) == groups_of(map@.subrange(0, i as int)),
        decreases map.files.len() - i,
    {
        let ghost pre = groups_view_of(groups@);
        proof {
            assert(map@.subrange(0, i + 1).drop_last() =~= map@.subrange(0, i as int));
            assert(map@.subrange(0, i + 1).last() == map@[i as int]);
        }
        let dir = parent_dir_str(map.files[i].file_path.as_str());
        let name = file_name_str(map.files[i].file_path.as_str());
        proof {
            assert(map@[i as int].file_path == map.files@[i as int].file_path@);
        }
        let mut found: Option<usize> = None;
        let mut a: usize = 0;
        while a < groups.len()
            invariant
                a <= groups.len(),
                groups_view_of(groups@) == pre,
                match found {
                    Some(b) => b < a && pre[b as int].0 == dir@ && (forall|j: int|
                        0 <= j < b ==> (#[trigger] pre[j]).0 != dir@),
                    None => forall|j: int| 0 <= j < a ==> (#[trigger] pre[j]).0 != dir@,
                },
            decreases groups.len() - a,
        {
            if found.is_none() && str_eq(groups[a].0.as_str(), dir.as_str()) {
                proof {
                    assert(pre[a as int].0 == dir@);
                }
                found = Some(a);
            }
            a = a + 1;
        }
        let ghost dirv = dir@;
        let ghost namev = name@;
        match found {
            Some(idx) => {
                proof {
                    lemma_key_index_of_scan(pre, dirv, idx as int);
                }
                let mut entry = groups.remove(idx);
                proof {
                    assert(entry.0@ == pre[idx as int].0);
                    assert(strings_view(entry.1@) == pre[idx as int].1);
                    assert(groups_view_of(groups@) =~= pre.remove(idx as int));
                }
                entry.1.push(name);
                proof {
                    assert(strings_view(entry.1@) =~= pre[idx as int].1.push(namev));
                }
                groups.insert(idx, entry);
                proof {
                    assert(groups_view_of(groups@) =~= pre.remove(idx as int).insert(
                        idx as int,
                        (dirv, pre[idx as int].1.push(namev)),
                    ));
                    assert(pre.remove(idx as int).insert(
                        idx as int,
                        (dirv, pre[idx as int].1.push(namev)),
                    ) =~= pre.update(idx as int, (dirv, pre[idx as int].1.push(namev))));
                    assert(groups_view_of(groups@) =~= pre.update(
                        idx as int,
                        (dirv, pre[idx as int].1.push(namev)),
                    ));
                }
            },
            None => {
                proof {
                    lemma_key_index_none(pre, dirv);
                }
                let mut names: Vec<String> = Vec::new();
                names.push(name);
                proof {
                    assert(strings_view(names@) =~= seq![namev]);
                }
                groups.push((dir, names));
                proof {
                    assert(groups_view_of(groups@) =~= pre.push((dirv, seq![namev])));
                }
            },
        }
        proof {
            assert(groups_view_of(groups@) =~= groups_of(map@.subrange(0, i + 1)));
        }
        i = i + 1;
    }
    proof {
        assert(map@.subrange(0, map@.len() as int) =~= map@);
    }
    groups
}

} // verus!

verus! {

fn est_lines_exec(nf: usize, ns: usize) -> (r: u64)
    ensures
        r as int == ((nf * 10 + ns * 5) % 0x100000000) as int,
{
    let raw: u128 = (nf as u128) * 10 + (ns as u128) * 5;
    (raw % 0x100000000u128) as u64
}

fn file_detail_to_json(t: &crate::types::TreeNode) -> (r: JsonValue)
    ensures
        r.jv() == json_of_file_detail(t@),
{
    let est = est_lines_exec(t.functions.len(), t.structs.len());
    let r = obj7(
        "path",
        js(t.file_path.as_str()),
        "language",
        js(t.language.as_str()),
        "functions",
        JsonValue::Int(usize_to_i64(t.functions.len())),
        "structs",
        JsonValue::Int(usize_to_i64(t.structs.len())),
        "imports",
        JsonValue::Int(usize_to_i64(t.imports.len())),
        "exports",
        JsonValue::Int(usize_to_i64(t.exports.len())),
        "estimated_line_count",
        JsonValue::Int(if est > i64::MAX as u64 {
            i64::MAX
        } else {
            est as i64
        }),
    );
    proof {
        assert(r.jv()->Obj_0 =~= json_of_file_detail(t@)->Obj_0);
        assert(r.jv() == json_of_file_detail(t@));
    }
    r
}

fn metadata_to_json(m: &RepoMapMetadata) -> (r: JsonValue)
    ensures
        r.jv() == json_of_metadata(m),
{
    let mut langs: Vec<JsonValue> = Vec::new();
    let ghost lv = strings_view(m.languages@);
    let mut i: usize = 0;
    while i < m.languages.len()
        invariant
            i <= m.languages.len(),
            lv == strings_view(m.languages@),
            lv.len() == m.languages@.len(),
            json_views_of(langs@) =~= lv.subrange(0, i as int).map_values(
                |l: Seq<char>| JsonView::Str(l),
            ),
        decreases m.languages.len() - i,
    {
        proof {
            assert(m.languages@[i as int]@ == lv[i as int]);
        }
        langs.push(js(m.languages[i].as_str()));
        proof {
            assert(json_views_of(langs@) =~= lv.subrange(0, i + 1).map_values(
                |l: Seq<char>| JsonView::Str(l),
            ));
        }
        i = i + 1;
    }
    proof {
        assert(lv.subrange(0, lv.len() as int) =~= lv);
    }
    let mut e: Vec<(String, JsonValue)> = Vec::new();
    proof {
        assert(json_entries_of(e@) =~= Seq::<(Seq<char>, JsonView)>::empty());
    }
    e.push(("total_files".to_owned(), JsonValue::Int(usize_to_i64(m.total_files))));
    proof {
        assert(json_entries_of(e@).len() == 1);
    }
    e.push(("total_functions".to_owned(), JsonValue::Int(usize_to_i64(m.total_functions))));
    proof {
        assert(json_entries_of(e@).len() == 2);
    }
    e.push(("total_structs".to_owned(), JsonValue::Int(usize_to_i64(m.total_structs))));
    proof {
        assert(json_entries_of(e@).len() == 3);
    }
    e.push(("total_imports".to_owned(), JsonValue::Int(usize_to_i64(m.total_imports))));
    proof {
        assert(json_entries_of(e@).len() == 4);
    }
    e.push(("total_exports".to_owned(), JsonValue::Int(usize_to_i64(m.total_exports))));
    proof {
        assert(json_entries_of(e@).len() == 5);
    }
    e.push(("languages".to_owned(), arr_from(langs)));
    proof {
        assert(json_entries_of(e@).len() == 6);
    }
    e.push(("last_updated".to_owned(), JsonValue::Int(u64_to_i64(m.last_updated))));
    proof {
        assert(json_entries_of(e@).len() == 7);
    }
    e.push(("memory_usage_bytes".to_owned(), JsonValue::Int(usize_to_i64(m.memory_usage_bytes))));
    proof {
        assert(json_entries_of(e@).len() == 8);
    }
    e.push(("cache_hits".to_owned(), JsonValue::Int(u64_to_i64(m.cache_hits))));
    proof {
        assert(json_entries_of(e@).len() == 9);
    }
    e.push(("cache_misses".to_owned(), JsonValue::Int(u64_to_i64(m.cache_misses))));
    proof {
        assert(json_entries_of(e@).len() == 10);
    }
    let r = JsonValue::Obj(e);
    proof {
        assert(r.jv()->Obj_0 =~= json_of_metadata(m)->Obj_0);
        assert(r.jv() == json_of_metadata(m));
    }
    r
}

fn u64_to_i64(n: u64) -> (r: i64)
    ensures
        r == clamp_i64(n as int),
{
    if n > i64::MAX as u64 {
        i64::MAX
    } else {
        n as i64
    }
}

#[verifier::rlimit(80)]
fn get_repository_tree_tool(map: &RepoMap, input: &JsonValue) -> (r: ToolResult)
    ensures
        ToolStepView::Done(r@) == repository_tree_step(map, input.jv()),
{
    let details_ok = match input.get("include_file_details") {
        None => true,
        Some(v) => match v.as_bool() {
            Some(_) => true,
            None => false,
        },
    };
    let depth_ok = match input.get("max_depth") {
        None => true,
        Some(v) => match v.as_i64() {
            Some(_) => true,
            None => false,
        },
    };
    if !details_ok || !depth_ok {
        return invalid_input("get_repository_tree");
    }
    let include_details = match input.get("include_file_details") {
        Some(v) => match v.as_bool() {
            Some(b) => b,
            None => true,
        },
        None => true,
    };
    let groups = build_groups(map);
    let ghost gv = crate::tools::groups_view_of(groups@);

    let mut dir_entries: Vec<(String, JsonValue)> = Vec::new();
    let mut gi: usize = 0;
    while gi < groups.len()
        invariant
            gi <= groups.len(),
            gv == groups_view_of(groups@),
            gv.len() == groups@.len(),
            json_entries_of(dir_entries@) =~= gv.subrange(0, gi as int).map_values(
                |g: (Seq<char>, Seq<Seq<char>>)|
                    (g.0, JsonView::Arr(g.1.map_values(|n: Seq<char>| JsonView::Str(n)))),
            ),
        decreases groups.len() - gi,
    {
        let ghost pre = json_entries_of(dir_entries@);
        proof {
            assert(gv[gi as int] == (groups@[gi as int].0@, strings_view(
                groups@[gi as int].1@,
            )));
        }
        let mut names: Vec<JsonValue> = Vec::new();
        let mut k: usize = 0;
        while k < groups[gi].1.len()
            invariant
                gi < groups.len(),
                gv == groups_view_of(groups@),
                gv.len() == groups@.len(),
                k <= groups@[gi as int].1.len(),
                gv[gi as int].1 == strings_view(groups@[gi as int].1@),
                json_views_of(names@) =~= gv[gi as int].1.subrange(0, k as int).map_values(
                    |n: Seq<char>| JsonView::Str(n),
                ),
            decreases groups[gi as int].1.len() - k,
        {
            proof {
                assert(groups@[gi as int].1@[k as int]@ == gv[gi as int].1[k as int]);
            }
            names.push(js(groups[gi].1[k].as_str()));
            proof {
                assert(json_views_of(names@) =~= gv[gi as int].1.subrange(0, k + 1).map_values(
                    |n: Seq<char>| JsonView::Str(n),
                ));
            }
            k = k + 1;
        }
        proof {
            assert(gv[gi as int].1.subrange(0, gv[gi as int].1.len() as int) =~= gv[
                gi as int
            ].1);
        }
        dir_entries.push((groups[gi].0.clone(), arr_from(names)));
        proof {
            assert(gv.subrange(0, gi + 1).drop_last() =~= gv.subrange(0, gi as int));
            assert(gv.subrange(0, gi + 1).last() == gv[gi as int]);
            assert(json_entries_of(dir_entries@) =~= gv.subrange(0, gi + 1).map_values(
                |g: (Seq<char>, Seq<Seq<char>>)|
                    (g.0, JsonView::Arr(g.1.map_values(|n: Seq<char>| JsonView::Str(n)))),
            ));
        }
        gi = gi + 1;
    }
    proof {
        assert(gv.subrange(0, gv.len() as int) =~= gv);
    }
    let directories = JsonValue::Obj(dir_entries);
    proof {
        assert(directories.jv()->Obj_0 =~= directories_json(gv)->Obj_0);
        assert(directories.jv() == directories_json(gv));
    }

    let mut stat_entries: Vec<(String, JsonValue)> = Vec::new();
    let mut si: usize = 0;
    while si < groups.len()
        invariant
            si <= groups.len(),
            gv == groups_view_of(groups@),
            gv.len() == groups@.len(),
            json_entries_of(stat_entries@) =~= gv.subrange(0, si as int).map_values(
                |g: (Seq<char>, Seq<Seq<char>>)|
                    (
                        g.0,
                        JsonView::Arr(
                            seq![
                                JsonView::Int(clamp_i64(g.1.len() as int)),
                                JsonView::Int(clamp_i64(dir_est(map@, g.0))),
                            ],
                        ),
                    ),
            ),
        decreases groups.len() - si,
    {
        proof {
            assert(gv[si as int] == (groups@[si as int].0@, strings_view(
                groups@[si as int].1@,
            )));
            assert(gv[si as int].1.len() == groups@[si as int].1@.len());
        }
        let mut est: u128 = 0;
        let mut fi: usize = 0;
        while fi < map.files.len()
            invariant
                si < groups.len(),
                gv == groups_view_of(groups@),
                fi <= map.files.len(),
                gv[si as int].0 == groups@[si as int].0@,
                est == dir_est(map@.subrange(0, fi as int), gv[si as int].0),
                est <= (fi as int) * 0x100000000,
            decreases map.files.len() - fi,
        {
            proof {
                assert(map@.subrange(0, fi + 1).drop_last() =~= map@.subrange(0, fi as int));
                assert(map@.subrange(0, fi + 1).last() == map@[fi as int]);
                assert(map@[fi as int].file_path == map.files@[fi as int].file_path@);
                assert(map@[fi as int].functions.len() == map.files@[fi as int].functions@.len());
                assert(map@[fi as int].structs.len() == map.files@[fi as int].structs@.len());
            }
            let dir = parent_dir_str(map.files[fi].file_path.as_str());
            if str_eq(dir.as_str(), groups[si].0.as_str()) {
                let e = est_lines_exec(map.files[fi].functions.len(), map.files[fi].structs.len());
                est = est + e as u128;
            }
            fi = fi + 1;
        }
        proof {
            assert(map@.subrange(0, map@.len() as int) =~= map@);
        }
        let est_clamped: i64 = if est > i64::MAX as u128 {
            i64::MAX
        } else {
            est as i64
        };
        let count = usize_to_i64(groups[si].1.len());
        let mut pair: Vec<JsonValue> = Vec::new();
        pair.push(JsonValue::Int(count));
        pair.push(JsonValue::Int(est_clamped));
        proof {
            assert(json_views_of(pair@) =~= seq![
                JsonView::Int(clamp_i64(gv[si as int].1.len() as int)),
                JsonView::Int(clamp_i64(dir_est(map@, gv[si as int].0))),
            ]);
        }
        stat_entries.push((groups[si].0.clone(), JsonValue::Arr(pair)));
        proof {
            assert(gv.subrange(0, si + 1).drop_last() =~= gv.subrange(0, si as int));
            assert(gv.subrange(0, si + 1).last() == gv[si as int]);
            assert(json_entries_of(stat_entries@) =~= gv.subrange(0, si + 1).map_values(
                |g: (Seq<char>, Seq<Seq<char>>)|
                    (
                        g.0,
                        JsonView::Arr(
                            seq![
                                JsonView::Int(clamp_i64(g.1.len() as int)),
                                JsonView::Int(clamp_i64(dir_est(map@, g.0))),
                            ],
                        ),
                    ),
            ));
        }
        si = si + 1;
    }
    proof {
        assert(gv.subrange(0, gv.len() as int) =~= gv);
    }
    let stats = JsonValue::Obj(stat_entries);
    proof {
        assert(stats.jv()->Obj_0 =~= directory_stats_json(gv, map@)->Obj_0);
        assert(stats.jv() == directory_stats_json(gv, map@));
    }

    let tree_structure: JsonValue = if include_details {
        let mut details: Vec<JsonValue> = Vec::new();
        let mut di: usize = 0;
        while di < map.files.len()
            invariant
                di <= map.files.len(),
                json_views_of(details@) =~= map@.subrange(0, di as int).map_values(
                    |t: TreeNodeView| json_of_file_detail(t),
                ),
            decreases map.files.len() - di,
        {
            proof {
                assert(map@[di as int] == map.files@[di as int]@);
            }
            details.push(file_detail_to_json(&map.files[di]));
            proof {
                assert(json_views_of(details@) =~= map@.subrange(0, di + 1).map_values(
                    |t: TreeNodeView| json_of_file_detail(t),
                ));
            }
            di = di + 1;
        }
        proof {
            assert(map@.subrange(0, map@.len() as int) =~= map@);
        }
        let ts = obj3(
            "directories",
            directories,
            "directory_stats",
            stats,
            "file_details",
            arr_from(details),
        );
        proof {
            assert(ts.jv()->Obj_0 =~= tree_structure_json(map@, true)->Obj_0);
            assert(ts.jv() == tree_structure_json(map@, true));
        }
        ts
    } else {
        let ts = obj2("directories", directories, "directory_stats", stats);
        proof {
            assert(ts.jv()->Obj_0 =~= tree_structure_json(map@, false)->Obj_0);
            assert(ts.jv() == tree_structure_json(map@, false));
        }
        ts
    };
    let metadata = metadata_to_json(&map.metadata);
    let data = obj5(
        "status",
        js("success"),
        "total_files",
        JsonValue::Int(usize_to_i64(map.file_count())),
        "total_directories",
        JsonValue::Int(usize_to_i64(groups.len())),
        "metadata",
        metadata,
        "tree_structure",
        tree_structure,
    );
    let r = ToolResult::success(data);
    proof {
        assert(r@.data->Obj_0 =~= tree_data(map, include_details)->Obj_0);
        assert(r@.data == tree_data(map, include_details));
    }
    r
}

/// What `execute_tool` decides for each tool name.
pub open spec fn execute_tool_step(map: &RepoMap, name: Seq<char>, input: JsonView) -> ToolStepView {
    if name == "search_functions"@ {
        search_functions_step(map@, input)
    } else if name == "search_structs"@ {
        search_structs_step(map@, input)
    } else if name == "analyze_file"@ {
        analyze_file_step(input)
    } else if name == "get_dependencies"@ {
        get_dependencies_step(map, input)
    } else if name == "find_callers"@ {
        find_callers_step(map@, input)
    } else if name == "get_repository_tree"@ {
        repository_tree_step(map, input)
    } else {
        error_step(unknown_tool_message(name))
    }
}

/// Routes one JSON-shaped tool call against the index. An unknown name or
/// invalid input answers a failing `ToolResult`, never an exception; the
/// analyze_file tool answers the file-read step its caller must perform.
pub fn execute_tool(map: &RepoMap, name: &str, input: &JsonValue) -> (r: ToolStep)
    ensures
        r@ == execute_tool_step(map, name@, input.jv()),
{
    if str_eq(name, "search_functions") {
        ToolStep::Done(search_functions_tool(map, input))
    } else if str_eq(name, "search_structs") {
        ToolStep::Done(search_structs_tool(map, input))
    } else if str_eq(name, "analyze_file") {
        analyze_file_tool(input)
    } else if str_eq(name, "get_dependencies") {
        ToolStep::Done(get_dependencies_tool(map, input))
    } else if str_eq(name, "find_callers") {
        ToolStep::Done(find_callers_tool(map, input))
    } else if str_eq(name, "get_repository_tree") {
        ToolStep::Done(get_repository_tree_tool(map, input))
    } else {
        let mut msg = "Unknown tool: ".to_owned();
        msg.append(name);
        proof {
            assert(msg@ =~= unknown_tool_message(name@));
        }
        ToolStep::Done(ToolResult::error(msg))
    }
}

} // verus!

verus! {

/// The JSON shape of one import.
pub open spec fn json_of_import(i: crate::types::ImportStatementView) -> JsonView {
    JsonView::Obj(
        seq![
            ("path"@, JsonView::Str(i.import_path)),
            ("line_number"@, JsonView::Int(i.line_number as i64)),
            ("is_external"@, JsonView::Bool(i.is_external)),
        ],
    )
}

/// The JSON shape of one export.
pub open spec fn json_of_export(e: crate::types::ExportStatementView) -> JsonView {
    JsonView::Obj(
        seq![
            ("name"@, JsonView::Str(e.exported_item)),
            ("line_number"@, JsonView::Int(e.line_number as i64)),
        ],
    )
}

/// The JSON shape of one recorded call.
pub open spec fn json_of_fncall(c: crate::types::FunctionCallView) -> JsonView {
    JsonView::Obj(
        seq![
            ("function_name"@, JsonView::Str(c.function_name)),
            ("line_number"@, JsonView::Int(c.line_number as i64)),
            ("column"@, JsonView::Int(c.column as i64)),
            (
                "caller_function"@,
                match c.caller_function {
                    Some(n) => JsonView::Str(n),
                    None => JsonView::Null,
                },
            ),
        ],
    )
}

/// The JSON shape of one whole file record.
pub open spec fn json_of_tree_node(t: TreeNodeView) -> JsonView {
    JsonView::Obj(
        seq![
            ("file_path"@, JsonView::Str(t.file_path)),
            ("language"@, JsonView::Str(t.language)),
            (
                "functions"@,
                JsonView::Arr(t.functions.map_values(|f: FunctionSignatureView| json_of_function(f))),
            ),
            (
                "structs"@,
                JsonView::Arr(t.structs.map_values(|s: StructSignatureView| json_of_struct(s))),
            ),
            (
                "imports"@,
                JsonView::Arr(
                    t.imports.map_values(|i: crate::types::ImportStatementView| json_of_import(i)),
                ),
            ),
            (
                "exports"@,
                JsonView::Arr(
                    t.exports.map_values(|e: crate::types::ExportStatementView| json_of_export(e)),
                ),
            ),
            (
                "function_calls"@,
                JsonView::Arr(
                    t.function_calls.map_values(
                        |c: crate::types::FunctionCallView| json_of_fncall(c),
                    ),
                ),
            ),
            ("content_hash"@, JsonView::Str(t.content_hash)),
            ("last_modified"@, JsonView::Int(clamp_i64(t.last_modified as int))),
        ],
    )
}

fn import_to_json(i: &crate::types::ImportStatement) -> (r: JsonValue)
    ensures
        r.jv() == json_of_import(i@),
{
    let r = obj3(
        "path",
        js(i.import_path.as_str()),
        "line_number",
        JsonValue::Int(i.line_number as i64),
        "is_external",
        JsonValue::Bool(i.is_external),
    );
    proof {
        assert(r.jv()->Obj_0 =~= json_of_import(i@)->Obj_0);
        assert(r.jv() == json_of_import(i@));
    }
    r
}

fn export_to_json(e: &crate::types::ExportStatement) -> (r: JsonValue)
    ensures
        r.jv() == json_of_export(e@),
{
    let r = obj2(
        "name",
        js(e.exported_item.as_str()),
        "line_number",
        JsonValue::Int(e.line_number as i64),
    );
    proof {
        assert(r.jv()->Obj_0 =~= json_of_export(e@)->Obj_0);
        assert(r.jv() == json_of_export(e@));
    }
    r
}

fn fncall_to_json(c: &crate::types::FunctionCall) -> (r: JsonValue)
    ensures
        r.jv() == json_of_fncall(c@),
{
    let caller = match &c.caller_function {
        Some(n) => js(n.as_str()),
        None => JsonValue::Null,
    };
    let r = obj4(
        "function_name",
        js(c.function_name.as_str()),
        "line_number",
        JsonValue::Int(c.line_number as i64),
        "column",
        JsonValue::Int(c.column as i64),
        "caller_function",
        caller,
    );
    proof {
        assert(r.jv()->Obj_0 =~= json_of_fncall(c@)->Obj_0);
        assert(r.jv() == json_of_fncall(c@));
    }
    r
}

/// Serializes one file record to its JSON shape.
pub fn tree_node_to_json(t: &crate::types::TreeNode) -> (r: JsonValue)
    ensures
        r.jv() == json_of_tree_node(t@),
{
    let mut functions: Vec<JsonValue> = Vec::new();
    let mut i: usize = 0;
    while i < t.functions.len()
        invariant
            i <= t.functions.len(),
            json_views_of(functions@) =~= t@.functions.subrange(0, i as int).map_values(
                |f: FunctionSignatureView| json_of_function(f),
            ),
        decreases t.functions.len() - i,
    {
        proof {
            assert(t@.functions[i as int] == t.functions@[i as int]@);
        }
        functions.push(function_to_json(&t.functions[i]));
        proof {
            assert(json_views_of(functions@) =~= t@.functions.subrange(0, i + 1).map_values(
                |f: FunctionSignatureView| json_of_function(f),
            ));
        }
        i = i + 1;
    }
    proof {
        assert(t@.functions.subrange(0, t@.functions.len() as int) =~= t@.functions);
    }
    let mut structs: Vec<JsonValue> = Vec::new();
    let mut j: usize = 0;
    while j < t.structs.len()
        invariant
            j <= t.structs.len(),
            json_views_of(structs@) =~= t@.structs.subrange(0, j as int).map_values(
                |s: StructSignatureView| json_of_struct(s),
            ),
        decreases t.structs.len() - j,
    {
        proof {
            assert(t@.structs[j as int] == t.structs@[j as int]@);
        }
        structs.push(struct_to_json(&t.structs[j]));
        proof {
            assert(json_views_of(structs@) =~= t@.structs.subrange(0, j + 1).map_values(
                |s: StructSignatureView| json_of_struct(s),
            ));
        }
        j = j + 1;
    }
    proof {
        assert(t@.structs.subrange(0, t@.structs.len() as int) =~= t@.structs);
    }
    let mut imports: Vec<JsonValue> = Vec::new();
    let mut k: usize = 0;
    while k < t.imports.len()
        invariant
            k <= t.imports.len(),
            json_views_of(imports@) =~= t@.imports.subrange(0, k as int).map_values(
                |im: crate::types::ImportStatementView| json_of_import(im),
            ),
        decreases t.imports.len() - k,
    {
        proof {
            assert(t@.imports[k as int] == t.imports@[k as int]@);
        }
        imports.push(import_to_json(&t.imports[k]));
        proof {
            assert(json_views_of(imports@) =~= t@.imports.subrange(0, k + 1).map_values(
                |im: crate::types::ImportStatementView| json_of_import(im),
            ));
        }
        k = k + 1;
    }
    proof {
        assert(t@.imports.subrange(0, t@.imports.len() as int) =~= t@.imports);
    }
    let mut exports: Vec<JsonValue> = Vec::new();
    let mut m: usize = 0;
    while m < t.exports.len()
        invariant
            m <= t.exports.len(),
            json_views_of(exports@) =~= t@.exports.subrange(0, m as int).map_values(
                |ex: crate::types::ExportStatementView| json_of_export(ex),
            ),
        decreases t.exports.len() - m,
    {
        proof {
            assert(t@.exports[m as int] == t.exports@[m as int]@);
        }
        exports.push(export_to_json(&t.exports[m]));
        proof {
            assert(json_views_of(exports@) =~= t@.exports.subrange(0, m + 1).map_values(
                |ex: crate::types::ExportStatementView| json_of_export(ex),
            ));
        }
        m = m + 1;
    }
    proof {
        assert(t@.exports.subrange(0, t@.exports.len() as int) =~= t@.exports);
    }
    let mut calls: Vec<JsonValue> = Vec::new();
    let mut n: usize = 0;
    while n < t.function_calls.len()
        invariant
            n <= t.function_calls.len(),
            json_views_of(calls@) =~= t@.function_calls.subrange(0, n as int).map_values(
                |c: crate::types::FunctionCallView| json_of_fncall(c),
            ),
        decreases t.function_calls.len() - n,
    {
        proof {
            assert(t@.function_calls[n as int] == t.function_calls@[n as int]@);
        }
        calls.push(fncall_to_json(&t.function_calls[n]));
        proof {
            assert(json_views_of(calls@) =~= t@.function_calls.subrange(0, n + 1).map_values(
                |c: crate::types::FunctionCallView| json_of_fncall(c),
            ));
        }
        n = n + 1;
    }
    proof {
        assert(t@.function_calls.subrange(0, t@.function_calls.len() as int)
            =~= t@.function_calls);
    }
    let mut e: Vec<(String, JsonValue)> = Vec::new();
    proof {
        assert(json_entries_of(e@) =~= Seq::<(Seq<char>, JsonView)>::empty());
    }
    e.push(("file_path".to_owned(), js(t.file_path.as_str())));
    proof {
        assert(json_entries_of(e@).len() == 1);
    }
    e.push(("language".to_owned(), js(t.language.as_str())));
    proof {
        assert(json_entries_of(e@).len() == 2);
    }
    e.push(("functions".to_owned(), arr_from(functions)));
    proof {
        assert(json_entries_of(e@).len() == 3);
    }
    e.push(("structs".to_owned(), arr_from(structs)));
    proof {
        assert(json_entries_of(e@).len() == 4);
    }
    e.push(("imports".to_owned(), arr_from(imports)));
    proof {
        assert(json_entries_of(e@).len() == 5);
    }
    e.push(("exports".to_owned(), arr_from(exports)));
    proof {
        assert(json_entries_of(e@).len() == 6);
    }
    e.push(("function_calls".to_owned(), arr_from(calls)));
    proof {
        assert(json_entries_of(e@).len() == 7);
    }
    e.push(("content_hash".to_owned(), js(t.content_hash.as_str())));
    proof {
        assert(json_entries_of(e@).len() == 8);
    }
    e.push(("last_modified".to_owned(), JsonValue::Int(u64_to_i64(t.last_modified))));
    proof {
        assert(json_entries_of(e@).len() == 9);
    }
    let r = JsonValue::Obj(e);
    proof {
        assert(r.jv()->Obj_0 =~= json_of_tree_node(t@)->Obj_0);
        assert(r.jv() == json_of_tree_node(t@));
    }
    r
}

/// The payload answered when the requested file could not be read.
pub open spec fn read_error_data(path: Seq<char>, msg: Seq<char>) -> JsonView {
    JsonView::Obj(
        seq![
            ("status"@, JsonView::Str("error"@)),
            ("file_path"@, JsonView::Str(path)),
            ("error"@, JsonView::Str("Failed to read file: "@ + msg)),
        ],
    )
}

/// The payload answered when the requested file was read and analyzed:
/// the analyzer's record for the content, and the raw content when asked
/// for.
pub open spec fn analyze_success_data(
    path: Seq<char>,
    content: Seq<char>,
    include_content: bool,
) -> JsonView {
    let base = seq![
        ("status"@, JsonView::Str("success"@)),
        ("file_path"@, JsonView::Str(path)),
        (
            "analysis"@,
            json_of_tree_node(crate::analyzer::analyzed_node_view(content, path)),
        ),
    ];
    if include_content {
        JsonView::Obj(base.push(("content"@, JsonView::Str(content))))
    } else {
        JsonView::Obj(base)
    }
}

/// Finishes an analyze_file step from what the caller read. A read error
/// answers the error payload exactly; on content, the record built by the
/// analyzer for the path's detected language is answered, with the raw
/// content included when asked for, and an analyzer failure is reported in
/// the same error shape.
pub fn resume_analyze_file(file_path: &str, include_content: bool, read: Result<String, String>)
    -> (r: ToolResult)
    ensures
        read matches Err(m) ==> r@ == (ToolResultView {
            success: false,
            data: read_error_data(file_path@, m@),
            error: None,
        }),
        read matches Ok(c) ==> {
            &&& (r@.success <==> (crate::scanner::language_of_path(file_path@) == "rust"@
                && crate::analyzer::rust_source_parses(c@)))
            &&& (r@.success ==> r@ == (ToolResultView {
                success: true,
                data: analyze_success_data(file_path@, c@, include_content),
                error: None,
            }))
        },
        read matches Ok(_) && !r@.success ==> r@.data.get("status"@) == Some(
            JsonView::Str("error"@),
        ),
{
    proof {
        reveal_strlit("status");
        reveal_strlit("file_path");
        reveal_strlit("analysis");
        reveal_strlit("content");
        reveal_strlit("error");
        reveal_strlit("success");
    }
    match read {
        Err(m) => {
            let mut msg = "Failed to read file: ".to_owned();
            msg.append(m.as_str());
            let data = obj3(
                "status",
                js("error"),
                "file_path",
                js(file_path),
                "error",
                js(msg.as_str()),
            );
            let r = ToolResult::error_with_data(data);
            proof {
                assert(msg@ =~= "Failed to read file: "@ + m@);
                assert(r@.data->Obj_0 =~= read_error_data(file_path@, m@)->Obj_0);
                assert(r@.data == read_error_data(file_path@, m@));
            }
            r
        },
        Ok(content) => {
            let language = crate::scanner::detect_language(file_path);
            match crate::analyzer::analyze(content.as_str(), file_path, language.as_str()) {
                Ok(node) => {
                    let analysis = tree_node_to_json(&node);
                    let data = if include_content {
                        obj4(
                            "status",
                            js("success"),
                            "file_path",
                            js(file_path),
                            "analysis",
                            analysis,
                            "content",
                            js(content.as_str()),
                        )
                    } else {
                        obj3(
                            "status",
                            js("success"),
                            "file_path",
                            js(file_path),
                            "analysis",
                            analysis,
                        )
                    };
                    let r = ToolResult::success(data);
                    proof {
                        assert(r@.data->Obj_0 =~= analyze_success_data(
                            file_path@,
                            content@,
                            include_content,
                        )->Obj_0);
                        assert(r@.data == analyze_success_data(
                            file_path@,
                            content@,
                            include_content,
                        ));
                    }
                    r
                },
                Err(ae) => {
                    let reason = match ae {
                        crate::analyzer::AnalyzerError::UnsupportedLanguage(l) => {
                            let mut s = "Unsupported language: ".to_owned();
                            s.append(l.as_str());
                            s
                        },
                        crate::analyzer::AnalyzerError::ParseFailure(p) => {
                            let mut s = "Failed to analyze file: ".to_owned();
                            s.append(p.as_str());
                            s
                        },
                    };
                    let data = obj3(
                        "status",
                        js("error"),
                        "file_path",
                        js(file_path),
                        "error",
                        js(reason.as_str()),
                    );
                    let r = ToolResult::error_with_data(data);
                    proof {
                        let es = r@.data->Obj_0;
                        assert(es[0].0 == "status"@);
                        assert(crate::json::obj_lookup(es, "status"@) == Some(
                            JsonView::Str("error"@),
                        ));
                    }
                    r
                },
            }
        },
    }
}

} // verus!
