//! The per-file data model: signatures extracted from one source file and the
//! record (`TreeNode`) that groups them. Each executable type has a ghost
//! view counterpart over `Seq<char>` values; every contract in the crate
//! speaks of those views.

use vstd::prelude::*;

verus! {

/// Ghost view of a `Parameter`.
#[verifier::ext_equal]
pub struct ParameterView {
    pub name: Seq<char>,
    pub param_type: Seq<char>,
}

/// One parameter of a function, as written in the source.
pub struct Parameter {
    pub name: String,
    pub param_type: String,
}

impl View for Parameter {
    type V = ParameterView;

    open spec fn view(&self) -> ParameterView {
        ParameterView { name: self.name@, param_type: self.param_type@ }
    }
}

impl Parameter {
    pub fn new(name: String, param_type: String) -> (r: Self)
        ensures
            r@ == (ParameterView { name: name@, param_type: param_type@ }),
    {
        Parameter { name, param_type }
    }
}

impl Clone for Parameter {
    fn clone(&self) -> (r: Self)
        ensures
            r@ == self@,
    {
        Parameter { name: self.name.clone(), param_type: self.param_type.clone() }
    }
}

/// The views of a sequence of parameters.
pub open spec fn params_view(s: Seq<Parameter>) -> Seq<ParameterView> {
    s.map_values(|p: Parameter| p@)
}

/// Ghost view of a `FunctionSignature`.
#[verifier::ext_equal]
pub struct FunctionSignatureView {
    pub name: Seq<char>,
    pub parameters: Seq<ParameterView>,
    pub return_type: Option<Seq<char>>,
    pub is_public: bool,
    pub is_async: bool,
    pub start_line: u32,
    pub end_line: u32,
}

/// A function extracted from a source file. Lines are 1-based and inclusive.
pub struct FunctionSignature {
    pub name: String,
    pub parameters: Vec<Parameter>,
    pub return_type: Option<String>,
    pub is_public: bool,
    pub is_async: bool,
    pub start_line: u32,
    pub end_line: u32,
}

impl View for FunctionSignature {
    type V = FunctionSignatureView;

    open spec fn view(&self) -> FunctionSignatureView {
        FunctionSignatureView {
            name: self.name@,
            parameters: params_view(self.parameters@),
            return_type: match self.return_type {
                Some(t) => Some(t@),
                None => None,
            },
            is_public: self.is_public,
            is_async: self.is_async,
            start_line: self.start_line,
            end_line: self.end_line,
        }
    }
}

/// The views of a sequence of function signatures.
pub open spec fn fns_view(s: Seq<FunctionSignature>) -> Seq<FunctionSignatureView> {
    s.map_values(|f: FunctionSignature| f@)
}

impl FunctionSignature {
    pub fn new(name: String) -> (r: Self)
        ensures
            r@ =~= (FunctionSignatureView {
                name: name@,
                parameters: Seq::empty(),
                return_type: None,
                is_public: false,
                is_async: false,
                start_line: 0,
                end_line: 0,
            }),
    {
        let r = FunctionSignature {
            name,
            parameters: Vec::new(),
            return_type: None,
            is_public: false,
            is_async: false,
            start_line: 0,
            end_line: 0,
        };
        assert(params_view(r.parameters@) =~= Seq::<ParameterView>::empty());
        r
    }

    pub fn with_parameters(self, parameters: Vec<Parameter>) -> (r: Self)
        ensures
            r@ == (FunctionSignatureView { parameters: params_view(parameters@), ..self@ }),
    {
        let mut r = self;
        r.parameters = parameters;
        r
    }

    pub fn with_return_type(self, return_type: String) -> (r: Self)
        ensures
            r@ == (FunctionSignatureView { return_type: Some(return_type@), ..self@ }),
    {
        let mut r = self;
        r.return_type = Some(return_type);
        r
    }

    pub fn with_visibility(self, is_public: bool) -> (r: Self)
        ensures
            r@ == (FunctionSignatureView { is_public, ..self@ }),
    {
        let mut r = self;
        r.is_public = is_public;
        r
    }

    pub fn with_async(self, is_async: bool) -> (r: Self)
        ensures
            r@ == (FunctionSignatureView { is_async, ..self@ }),
    {
        let mut r = self;
        r.is_async = is_async;
        r
    }

    pub fn with_location(self, start_line: u32, end_line: u32) -> (r: Self)
        ensures
            r@ == (FunctionSignatureView { start_line, end_line, ..self@ }),
    {
        let mut r = self;
        r.start_line = start_line;
        r.end_line = end_line;
        r
    }
}

impl Clone for FunctionSignature {
    fn clone(&self) -> (r: Self)
        ensures
            r@ == self@,
    {
        let mut parameters: Vec<Parameter> = Vec::new();
        let mut i: usize = 0;
        while i < self.parameters.len()
            invariant
                i <= self.parameters.len(),
                parameters.len() == i,
                forall|j: int| 0 <= j < i ==> parameters@[j]@ == #[trigger] self.parameters@[j]@,
            decreases self.parameters.len() - i,
        {
            parameters.push(self.parameters[i].clone());
            i = i + 1;
        }
        assert(params_view(parameters@) =~= params_view(self.parameters@));
        let return_type = match &self.return_type {
            Some(t) => Some(t.clone()),
            None => None,
        };
        let r = FunctionSignature {
            name: self.name.clone(),
            parameters,
            return_type,
            is_public: self.is_public,
            is_async: self.is_async,
            start_line: self.start_line,
            end_line: self.end_line,
        };
        assert(r@ =~= self@);
        r
    }
}

/// Ghost view of a `StructField`.
#[verifier::ext_equal]
pub struct StructFieldView {
    pub name: Seq<char>,
    pub field_type: Seq<char>,
    pub is_public: bool,
}

/// One named field of a struct, as written in the source.
pub struct StructField {
    pub name: String,
    pub field_type: String,
    pub is_public: bool,
}

impl View for StructField {
    type V = StructFieldView;

    open spec fn view(&self) -> StructFieldView {
        StructFieldView {
            name: self.name@,
            field_type: self.field_type@,
            is_public: self.is_public,
        }
    }
}

/// The views of a sequence of struct fields.
pub open spec fn fields_view(s: Seq<StructField>) -> Seq<StructFieldView> {
    s.map_values(|f: StructField| f@)
}

impl StructField {
    pub fn new(name: String, field_type: String, is_public: bool) -> (r: Self)
        ensures
            r@ == (StructFieldView { name: name@, field_type: field_type@, is_public }),
    {
        StructField { name, field_type, is_public }
    }
}

impl Clone for StructField {
    fn clone(&self) -> (r: Self)
        ensures
            r@ == self@,
    {
        StructField {
            name: self.name.clone(),
            field_type: self.field_type.clone(),
            is_public: self.is_public,
        }
    }
}

/// Ghost view of a `StructSignature`.
#[verifier::ext_equal]
pub struct StructSignatureView {
    pub name: Seq<char>,
    pub fields: Seq<StructFieldView>,
    pub is_public: bool,
    pub is_tuple_struct: bool,
    pub start_line: u32,
    pub end_line: u32,
}

/// A struct (or class-like) declaration extracted from a source file.
pub struct StructSignature {
    pub name: String,
    pub fields: Vec<StructField>,
    pub is_public: bool,
    pub is_tuple_struct: bool,
    pub start_line: u32,
    pub end_line: u32,
}

impl View for StructSignature {
    type V = StructSignatureView;

    open spec fn view(&self) -> StructSignatureView {
        StructSignatureView {
            name: self.name@,
            fields: fields_view(self.fields@),
            is_public: self.is_public,
            is_tuple_struct: self.is_tuple_struct,
            start_line: self.start_line,
            end_line: self.end_line,
        }
    }
}

/// The views of a sequence of struct signatures.
pub open spec fn structs_view(s: Seq<StructSignature>) -> Seq<StructSignatureView> {
    s.map_values(|f: StructSignature| f@)
}

impl StructSignature {
    pub fn new(name: String) -> (r: Self)
        ensures
            r@ =~= (StructSignatureView {
                name: name@,
                fields: Seq::empty(),
                is_public: false,
                is_tuple_struct: false,
                start_line: 0,
                end_line: 0,
            }),
    {
        let r = StructSignature {
            name,
            fields: Vec::new(),
            is_public: false,
            is_tuple_struct: false,
            start_line: 0,
            end_line: 0,
        };
        assert(fields_view(r.fields@) =~= Seq::<StructFieldView>::empty());
        r
    }

    pub fn with_fields(self, fields: Vec<StructField>) -> (r: Self)
        ensures
            r@ == (StructSignatureView { fields: fields_view(fields@), ..self@ }),
    {
        let mut r = self;
        r.fields = fields;
        r
    }

    pub fn with_visibility(self, is_public: bool) -> (r: Self)
        ensures
            r@ == (StructSignatureView { is_public, ..self@ }),
    {
        let mut r = self;
        r.is_public = is_public;
        r
    }

    pub fn with_tuple_struct(self, is_tuple_struct: bool) -> (r: Self)
        ensures
            r@ == (StructSignatureView { is_tuple_struct, ..self@ }),
    {
        let mut r = self;
        r.is_tuple_struct = is_tuple_struct;
        r
    }

    pub fn with_location(self, start_line: u32, end_line: u32) -> (r: Self)
        ensures
            r@ == (StructSignatureView { start_line, end_line, ..self@ }),
    {
        let mut r = self;
        r.start_line = start_line;
        r.end_line = end_line;
        r
    }
}

impl Clone for StructSignature {
    fn clone(&self) -> (r: Self)
        ensures
            r@ == self@,
    {
        let mut fields: Vec<StructField> = Vec::new();
        let mut i: usize = 0;
        while i < self.fields.len()
            invariant
                i <= self.fields.len(),
                fields.len() == i,
                forall|j: int| 0 <= j < i ==> fields@[j]@ == #[trigger] self.fields@[j]@,
            decreases self.fields.len() - i,
        {
            fields.push(self.fields[i].clone());
            i = i + 1;
        }
        assert(fields_view(fields@) =~= fields_view(self.fields@));
        let r = StructSignature {
            name: self.name.clone(),
            fields,
            is_public: self.is_public,
            is_tuple_struct: self.is_tuple_struct,
            start_line: self.start_line,
            end_line: self.end_line,
        };
        assert(r@ =~= self@);
        r
    }
}

/// Ghost view of an `ImportStatement`.
#[verifier::ext_equal]
pub struct ImportStatementView {
    pub import_path: Seq<char>,
    pub line_number: u32,
    pub is_external: bool,
}

/// A `use` (or equivalent) declaration: the verbatim path text and its line.
pub struct ImportStatement {
    pub import_path: String,
    pub line_number: u32,
    pub is_external: bool,
}

impl View for ImportStatement {
    type V = ImportStatementView;

    open spec fn view(&self) -> ImportStatementView {
        ImportStatementView {
            import_path: self.import_path@,
            line_number: self.line_number,
            is_external: self.is_external,
        }
    }
}

/// The views of a sequence of import statements.
pub open spec fn imports_view(s: Seq<ImportStatement>) -> Seq<ImportStatementView> {
    s.map_values(|f: ImportStatement| f@)
}

impl ImportStatement {
    pub fn new(import_path: String) -> (r: Self)
        ensures
            r@ == (ImportStatementView {
                import_path: import_path@,
                line_number: 0,
                is_external: false,
            }),
    {
        ImportStatement { import_path, line_number: 0, is_external: false }
    }

    pub fn with_line_number(self, line_number: u32) -> (r: Self)
        ensures
            r@ == (ImportStatementView { line_number, ..self@ }),
    {
        let mut r = self;
        r.line_number = line_number;
        r
    }

    pub fn with_external(self, is_external: bool) -> (r: Self)
        ensures
            r@ == (ImportStatementView { is_external, ..self@ }),
    {
        let mut r = self;
        r.is_external = is_external;
        r
    }
}

impl Clone for ImportStatement {
    fn clone(&self) -> (r: Self)
        ensures
            r@ == self@,
    {
        ImportStatement {
            import_path: self.import_path.clone(),
            line_number: self.line_number,
            is_external: self.is_external,
        }
    }
}

/// Ghost view of an `ExportStatement`.
#[verifier::ext_equal]
pub struct ExportStatementView {
    pub exported_item: Seq<char>,
    pub line_number: u32,
}

/// One publicly visible item of a file.
pub struct ExportStatement {
    pub exported_item: String,
    pub line_number: u32,
}

impl View for ExportStatement {
    type V = ExportStatementView;

    open spec fn view(&self) -> ExportStatementView {
        ExportStatementView { exported_item: self.exported_item@, line_number: self.line_number }
    }
}

/// The views of a sequence of export statements.
pub open spec fn exports_view(s: Seq<ExportStatement>) -> Seq<ExportStatementView> {
    s.map_values(|f: ExportStatement| f@)
}

impl ExportStatement {
    pub fn new(exported_item: String) -> (r: Self)
        ensures
            r@ == (ExportStatementView { exported_item: exported_item@, line_number: 0 }),
    {
        ExportStatement { exported_item, line_number: 0 }
    }

    pub fn with_line_number(self, line_number: u32) -> (r: Self)
        ensures
            r@ == (ExportStatementView { line_number, ..self@ }),
    {
        let mut r = self;
        r.line_number = line_number;
        r
    }
}

impl Clone for ExportStatement {
    fn clone(&self) -> (r: Self)
        ensures
            r@ == self@,
    {
        ExportStatement {
            exported_item: self.exported_item.clone(),
            line_number: self.line_number,
        }
    }
}

/// Ghost view of a `FunctionCall`.
#[verifier::ext_equal]
pub struct FunctionCallView {
    pub function_name: Seq<char>,
    pub file_path: Seq<char>,
    pub line_number: u32,
    pub column: u32,
    pub caller_function: Option<Seq<char>>,
}

/// One call expression: the callee as written (rightmost path segment), its
/// position, and the nearest enclosing function if one was resolved.
pub struct FunctionCall {
    pub function_name: String,
    pub file_path: String,
    pub line_number: u32,
    pub column: u32,
    pub caller_function: Option<String>,
}

impl View for FunctionCall {
    type V = FunctionCallView;

    open spec fn view(&self) -> FunctionCallView {
        FunctionCallView {
            function_name: self.function_name@,
            file_path: self.file_path@,
            line_number: self.line_number,
            column: self.column,
            caller_function: match self.caller_function {
                Some(c) => Some(c@),
                None => None,
            },
        }
    }
}

/// The views of a sequence of function calls.
pub open spec fn calls_view(s: Seq<FunctionCall>) -> Seq<FunctionCallView> {
    s.map_values(|f: FunctionCall| f@)
}

impl FunctionCall {
    pub fn new(function_name: String, file_path: String, line_number: u32) -> (r: Self)
        ensures
            r@ == (FunctionCallView {
                function_name: function_name@,
                file_path: file_path@,
                line_number,
                column: 1,
                caller_function: None,
            }),
    {
        FunctionCall { function_name, file_path, line_number, column: 1, caller_function: None }
    }

    pub fn with_column(self, column: u32) -> (r: Self)
        ensures
            r@ == (FunctionCallView { column, ..self@ }),
    {
        let mut r = self;
        r.column = column;
        r
    }

    pub fn with_caller(self, caller_function: String) -> (r: Self)
        ensures
            r@ == (FunctionCallView { caller_function: Some(caller_function@), ..self@ }),
    {
        let mut r = self;
        r.caller_function = Some(caller_function);
        r
    }
}

impl Clone for FunctionCall {
    fn clone(&self) -> (r: Self)
        ensures
            r@ == self@,
    {
        let caller_function = match &self.caller_function {
            Some(c) => Some(c.clone()),
            None => None,
        };
        FunctionCall {
            function_name: self.function_name.clone(),
            file_path: self.file_path.clone(),
            line_number: self.line_number,
            column: self.column,
            caller_function,
        }
    }
}

/// Ghost view of a `TreeNode`.
#[verifier::ext_equal]
pub struct TreeNodeView {
    pub file_path: Seq<char>,
    pub language: Seq<char>,
    pub functions: Seq<FunctionSignatureView>,
    pub structs: Seq<StructSignatureView>,
    pub imports: Seq<ImportStatementView>,
    pub exports: Seq<ExportStatementView>,
    pub function_calls: Seq<FunctionCallView>,
    pub content_hash: Seq<char>,
    pub last_modified: u64,
}

/// The record kept per analyzed file: every list extracted from it, the
/// file's content digest and its last-modified time in whole seconds.
pub struct TreeNode {
    pub file_path: String,
    pub language: String,
    pub functions: Vec<FunctionSignature>,
    pub structs: Vec<StructSignature>,
    pub imports: Vec<ImportStatement>,
    pub exports: Vec<ExportStatement>,
    pub function_calls: Vec<FunctionCall>,
    pub content_hash: String,
    pub last_modified: u64,
}

impl View for TreeNode {
    type V = TreeNodeView;

    open spec fn view(&self) -> TreeNodeView {
        TreeNodeView {
            file_path: self.file_path@,
            language: self.language@,
            functions: fns_view(self.functions@),
            structs: structs_view(self.structs@),
            imports: imports_view(self.imports@),
            exports: exports_view(self.exports@),
            function_calls: calls_view(self.function_calls@),
            content_hash: self.content_hash@,
            last_modified: self.last_modified,
        }
    }
}

/// The views of a sequence of file records.
pub open spec fn nodes_view(s: Seq<TreeNode>) -> Seq<TreeNodeView> {
    s.map_values(|f: TreeNode| f@)
}

impl TreeNode {
    pub fn new(file_path: String, language: String) -> (r: Self)
        ensures
            r@ =~= (TreeNodeView {
                file_path: file_path@,
                language: language@,
                functions: Seq::empty(),
                structs: Seq::empty(),
                imports: Seq::empty(),
                exports: Seq::empty(),
                function_calls: Seq::empty(),
                content_hash: Seq::empty(),
                last_modified: 0,
            }),
    {
        let r = TreeNode {
            file_path,
            language,
            functions: Vec::new(),
            structs: Vec::new(),
            imports: Vec::new(),
            exports: Vec::new(),
            function_calls: Vec::new(),
            content_hash: String::new(),
            last_modified: 0,
        };
        assert(fns_view(r.functions@) =~= Seq::<FunctionSignatureView>::empty());
        assert(structs_view(r.structs@) =~= Seq::<StructSignatureView>::empty());
        assert(imports_view(r.imports@) =~= Seq::<ImportStatementView>::empty());
        assert(exports_view(r.exports@) =~= Seq::<ExportStatementView>::empty());
        assert(calls_view(r.function_calls@) =~= Seq::<FunctionCallView>::empty());
        r
    }
}

impl Clone for TreeNode {
    fn clone(&self) -> (r: Self)
        ensures
            r@ == self@,
    {
        let mut functions: Vec<FunctionSignature> = Vec::new();
        let mut i: usize = 0;
        while i < self.functions.len()
            invariant
                i <= self.functions.len(),
                functions.len() == i,
                forall|j: int| 0 <= j < i ==> functions@[j]@ == #[trigger] self.functions@[j]@,
            decreases self.functions.len() - i,
        {
            functions.push(self.functions[i].clone());
            i = i + 1;
        }
        assert(fns_view(functions@) =~= fns_view(self.functions@));
        let mut structs: Vec<StructSignature> = Vec::new();
        let mut j: usize = 0;
        while j < self.structs.len()
            invariant
                j <= self.structs.len(),
                structs.len() == j,
                forall|k: int| 0 <= k < j ==> structs@[k]@ == #[trigger] self.structs@[k]@,
            decreases self.structs.len() - j,
        {
            structs.push(self.structs[j].clone());
            j = j + 1;
        }
        assert(structs_view(structs@) =~= structs_view(self.structs@));
        let mut imports: Vec<ImportStatement> = Vec::new();
        let mut k: usize = 0;
        while k < self.imports.len()
            invariant
                k <= self.imports.len(),
                imports.len() == k,
                forall|m: int| 0 <= m < k ==> imports@[m]@ == #[trigger] self.imports@[m]@,
            decreases self.imports.len() - k,
        {
            imports.push(self.imports[k].clone());
            k = k + 1;
        }
        assert(imports_view(imports@) =~= imports_view(self.imports@));
        let mut exports: Vec<ExportStatement> = Vec::new();
        let mut m: usize = 0;
        while m < self.exports.len()
            invariant
                m <= self.exports.len(),
                exports.len() == m,
                forall|n: int| 0 <= n < m ==> exports@[n]@ == #[trigger] self.exports@[n]@,
            decreases self.exports.len() - m,
        {
            exports.push(self.exports[m].clone());
            m = m + 1;
        }
        assert(exports_view(exports@) =~= exports_view(self.exports@));
        let mut function_calls: Vec<FunctionCall> = Vec::new();
        let mut n: usize = 0;
        while n < self.function_calls.len()
            invariant
                n <= self.function_calls.len(),
                function_calls.len() == n,
                forall|q: int| 0 <= q < n
                    ==> function_calls@[q]@ == #[trigger] self.function_calls@[q]@,
            decreases self.function_calls.len() - n,
        {
            function_calls.push(self.function_calls[n].clone());
            n = n + 1;
        }
        assert(calls_view(function_calls@) =~= calls_view(self.function_calls@));
        let r = TreeNode {
            file_path: self.file_path.clone(),
            language: self.language.clone(),
            functions,
            structs,
            imports,
            exports,
            function_calls,
            content_hash: self.content_hash.clone(),
            last_modified: self.last_modified,
        };
        assert(r@ =~= self@);
        r
    }
}

} // verus!

verus! {

/// The rendering of one parameter: its name, then `: ` and the type when
/// one was captured.
pub open spec fn param_text(p: ParameterView) -> Seq<char> {
    if p.param_type.len() == 0 {
        p.name
    } else {
        p.name + ": "@ + p.param_type
    }
}

/// `texts` joined with `, `.
pub open spec fn joined_texts(texts: Seq<Seq<char>>) -> Seq<char>
    decreases texts.len(),
{
    if texts.len() == 0 {
        Seq::empty()
    } else if texts.len() == 1 {
        texts[0]
    } else {
        joined_texts(texts.drop_last()) + ", "@ + texts.last()
    }
}

/// The one-line rendering of a function signature.
pub open spec fn function_line(f: FunctionSignatureView) -> Seq<char> {
    (if f.is_public {
        "pub "@
    } else {
        Seq::empty()
    }) + (if f.is_async {
        "async "@
    } else {
        Seq::empty()
    }) + "fn "@ + f.name + "("@ + joined_texts(f.parameters.map_values(|p: ParameterView| param_text(p)))
        + ")"@ + (match f.return_type {
        Some(t) => " -> "@ + t,
        None => Seq::empty(),
    })
}

/// The rendering of one struct field.
pub open spec fn field_text(f: StructFieldView) -> Seq<char> {
    (if f.is_public {
        "pub "@
    } else {
        Seq::empty()
    }) + f.name + ": "@ + f.field_type
}

/// The one-line rendering of a struct signature.
pub open spec fn struct_line(s: StructSignatureView) -> Seq<char> {
    (if s.is_public {
        "pub "@
    } else {
        Seq::empty()
    }) + "struct "@ + s.name + " { "@ + joined_texts(
        s.fields.map_values(|f: StructFieldView| field_text(f)),
    ) + " }"@
}

/// The one-line summary of a record.
pub open spec fn summary_text(t: TreeNodeView) -> Seq<char> {
    "File: "@ + t.file_path + " | Language: "@ + t.language + " | Functions: "@ + crate::text::u64_digits(
        t.functions.len() as u64,
    ) + " | Structs: "@ + crate::text::u64_digits(t.structs.len() as u64) + " | Imports: "@
        + crate::text::u64_digits(t.imports.len() as u64) + " | Exports: "@
        + crate::text::u64_digits(t.exports.len() as u64)
}

pub(crate) fn join_strings(texts: Vec<String>) -> (r: String)
    ensures
        r@ == joined_texts(crate::repo_map::strings_view(texts@)),
{
    let ghost tv = crate::repo_map::strings_view(texts@);
    let mut out = String::new();
    let mut i: usize = 0;
    while i < texts.len()
        invariant
            tv == crate::repo_map::strings_view(texts@),
            tv.len() == texts@.len(),
            i <= texts.len(),
            out@ == joined_texts(tv.subrange(0, i as int)),
        decreases texts.len() - i,
    {
        proof {
            assert(texts@[i as int]@ == tv[i as int]);
            assert(tv.subrange(0, i + 1).drop_last() =~= tv.subrange(0, i as int));
            assert(tv.subrange(0, i + 1).last() == tv[i as int]);
        }
        if i > 0 {
            out.append(", ");
            proof {
                reveal_strlit(", ");
            }
        }
        out.append(texts[i].as_str());
        proof {
            if i == 0 {
                assert(tv.subrange(0, 1)[0] == tv[0]);
                assert(out@ =~= joined_texts(tv.subrange(0, i + 1)));
            } else {
                assert(out@ =~= joined_texts(tv.subrange(0, i + 1)));
            }
        }
        i = i + 1;
    }
    proof {
        assert(tv.subrange(0, tv.len() as int) =~= tv);
    }
    out
}

impl TreeNode {
    /// Renders the record's one-line summary.
    pub fn summary(&self) -> (r: String)
        ensures
            r@ == summary_text(self@),
    {
        let mut out = "File: ".to_owned();
        out.append(self.file_path.as_str());
        out.append(" | Language: ");
        out.append(self.language.as_str());
        out.append(" | Functions: ");
        out.append(crate::text::usize_to_string(self.functions.len()).as_str());
        out.append(" | Structs: ");
        out.append(crate::text::usize_to_string(self.structs.len()).as_str());
        out.append(" | Imports: ");
        out.append(crate::text::usize_to_string(self.imports.len()).as_str());
        out.append(" | Exports: ");
        out.append(crate::text::usize_to_string(self.exports.len()).as_str());
        proof {
            assert(out@ =~= summary_text(self@));
        }
        out
    }

    /// Renders each function as one line, in record order.
    pub fn format_functions(&self) -> (r: Vec<String>)
        ensures
            crate::repo_map::strings_view(r@) == self@.functions.map_values(
                |f: FunctionSignatureView| function_line(f),
            ),
    {
        let mut out: Vec<String> = Vec::new();
        let mut i: usize = 0;
        while i < self.functions.len()
            invariant
                i <= self.functions.len(),
                crate::repo_map::strings_view(out@) =~= self@.functions.subrange(
                    0,
                    i as int,
                ).map_values(|f: FunctionSignatureView| function_line(f)),
            decreases self.functions.len() - i,
        {
            proof {
                assert(self@.functions[i as int] == self.functions@[i as int]@);
            }
            let f = &self.functions[i];
            let mut params: Vec<String> = Vec::new();
            let mut j: usize = 0;
            while j < f.parameters.len()
                invariant
                    i < self.functions.len(),
                    f == &self.functions[i as int],
                    f@ == self@.functions[i as int],
                    j <= f.parameters.len(),
                    crate::repo_map::strings_view(params@) =~= f@.parameters.subrange(
                        0,
                        j as int,
                    ).map_values(|p: ParameterView| param_text(p)),
                decreases f.parameters.len() - j,
            {
                proof {
                    assert(f@.parameters[j as int] == f.parameters@[j as int]@);
                }
                let p = &f.parameters[j];
                let text = if p.param_type.as_str().unicode_len() == 0 {
                    p.name.clone()
                } else {
                    let mut t = p.name.clone();
                    t.append(": ");
                    t.append(p.param_type.as_str());
                    proof {
                        reveal_strlit(": ");
                    }
                    t
                };
                let ghost prev = crate::repo_map::strings_view(params@);
                proof {
                    assert(text@ =~= param_text(f@.parameters[j as int]));
                }
                params.push(text);
                proof {
                    assert(crate::repo_map::strings_view(params@) =~= prev.push(
                        param_text(f@.parameters[j as int]),
                    ));
                    assert(crate::repo_map::strings_view(params@) =~= f@.parameters.subrange(
                        0,
                        j + 1,
                    ).map_values(|p: ParameterView| param_text(p)));
                }
                j = j + 1;
            }
            proof {
                assert(f@.parameters.subrange(0, f@.parameters.len() as int) =~= f@.parameters);
            }
            let joined = join_strings(params);
            let mut line = String::new();
            if f.is_public {
                line.append("pub ");
            }
            if f.is_async {
                line.append("async ");
            }
            line.append("fn ");
            line.append(f.name.as_str());
            line.append("(");
            line.append(joined.as_str());
            line.append(")");
            match &f.return_type {
                Some(t) => {
                    line.append(" -> ");
                    line.append(t.as_str());
                },
                None => {},
            }
            let ghost pre = crate::repo_map::strings_view(out@);
            proof {
                assert(line@ =~= function_line(self@.functions[i as int]));
            }
            out.push(line);
            proof {
                assert(crate::repo_map::strings_view(out@) =~= pre.push(
                    function_line(self@.functions[i as int]),
                ));
                assert(crate::repo_map::strings_view(out@) =~= self@.functions.subrange(
                    0,
                    i + 1,
                ).map_values(|f: FunctionSignatureView| function_line(f)));
            }
            i = i + 1;
        }
        proof {
            assert(self@.functions.subrange(0, self@.functions.len() as int) =~= self@.functions);
        }
        out
    }

    /// Renders each struct as one line, in record order.
    pub fn format_structs(&self) -> (r: Vec<String>)
        ensures
            crate::repo_map::strings_view(r@) == self@.structs.map_values(
                |s: StructSignatureView| struct_line(s),
            ),
    {
        let mut out: Vec<String> = Vec::new();
        let mut i: usize = 0;
        while i < self.structs.len()
            invariant
                i <= self.structs.len(),
                crate::repo_map::strings_view(out@) =~= self@.structs.subrange(
                    0,
                    i as int,
                ).map_values(|s: StructSignatureView| struct_line(s)),
            decreases self.structs.len() - i,
        {
            proof {
                assert(self@.structs[i as int] == self.structs@[i as int]@);
            }
            let s = &self.structs[i];
            let mut fields: Vec<String> = Vec::new();
            let mut j: usize = 0;
            while j < s.fields.len()
                invariant
                    i < self.structs.len(),
                    s == &self.structs[i as int],
                    s@ == self@.structs[i as int],
                    j <= s.fields.len(),
                    crate::repo_map::strings_view(fields@) =~= s@.fields.subrange(
                        0,
                        j as int,
                    ).map_values(|f: StructFieldView| field_text(f)),
                decreases s.fields.len() - j,
            {
                proof {
                    assert(s@.fields[j as int] == s.fields@[j as int]@);
                }
                let f = &s.fields[j];
                let mut text = String::new();
                if f.is_public {
                    text.append("pub ");
                }
                text.append(f.name.as_str());
                text.append(": ");
                text.append(f.field_type.as_str());
                let ghost prev = crate::repo_map::strings_view(fields@);
                proof {
                    assert(text@ =~= field_text(s@.fields[j as int]));
                }
                fields.push(text);
                proof {
                    assert(crate::repo_map::strings_view(fields@) =~= prev.push(
                        field_text(s@.fields[j as int]),
                    ));
                    assert(crate::repo_map::strings_view(fields@) =~= s@.fields.subrange(
                        0,
                        j + 1,
                    ).map_values(|f: StructFieldView| field_text(f)));
                }
                j = j + 1;
            }
            proof {
                assert(s@.fields.subrange(0, s@.fields.len() as int) =~= s@.fields);
            }
            let joined = join_strings(fields);
            let mut line = String::new();
            if s.is_public {
                line.append("pub ");
            }
            line.append("struct ");
            line.append(s.name.as_str());
            line.append(" { ");
            line.append(joined.as_str());
            line.append(" }");
            let ghost pre = crate::repo_map::strings_view(out@);
            proof {
                assert(line@ =~= struct_line(self@.structs[i as int]));
            }
            out.push(line);
            proof {
                assert(crate::repo_map::strings_view(out@) =~= pre.push(
                    struct_line(self@.structs[i as int]),
                ));
                assert(crate::repo_map::strings_view(out@) =~= self@.structs.subrange(
                    0,
                    i + 1,
                ).map_values(|s: StructSignatureView| struct_line(s)));
            }
            i = i + 1;
        }
        proof {
            assert(self@.structs.subrange(0, self@.structs.len() as int) =~= self@.structs);
        }
        out
    }
}

} // verus!
