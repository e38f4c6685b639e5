//! The in-memory index. `RepoMap` owns one record per analyzed file, keyed
//! by path, and keeps aggregate metadata in step with the records after
//! every mutation. Queries are pure functions of the record sequence and
//! the query arguments.

use vstd::prelude::*;
use crate::types::{
    TreeNode, TreeNodeView, FunctionSignature, FunctionSignatureView, StructSignature,
    StructSignatureView, ImportStatement, ImportStatementView, ExportStatement,
    ExportStatementView, FunctionCallView, nodes_view, fns_view, structs_view, imports_view,
    exports_view,
};
use crate::text::{str_eq, str_contains, u64_to_string, u64_digits};
use crate::matching::{matches_spec, matches_pattern, match_tier, tier_of};
use vstd::multiset::Multiset;

verus! {

/// An error from a mutating index operation.
#[derive(Debug)]
pub enum AnalysisError {
    /// Adding one more file would exceed the configured `max_files` bound.
    CapacityExceeded(String),
}

impl AnalysisError {
    /// The human-readable description of the error.
    pub fn message(&self) -> (r: &String)
        ensures
            self matches AnalysisError::CapacityExceeded(m) && r == m,
    {
        match self {
            AnalysisError::CapacityExceeded(m) => m,
        }
    }
}

/// The message carried by a `CapacityExceeded` error for bound `max`.
pub open spec fn capacity_message(max: u64) -> Seq<char> {
    "Maximum file limit ("@ + u64_digits(max) + ") reached"@
}

/// Ghost view of a `CallSite`.
#[verifier::ext_equal]
pub struct CallSiteView {
    pub file_path: Seq<char>,
    pub line_number: u32,
    pub column: u32,
    pub function_name: Seq<char>,
    pub caller_function: Option<Seq<char>>,
}

/// One recorded call of a named function: where it happens and, when
/// resolved, from inside which function.
pub struct CallSite {
    pub file_path: String,
    pub line_number: u32,
    pub column: u32,
    pub function_name: String,
    pub caller_function: Option<String>,
}

impl View for CallSite {
    type V = CallSiteView;

    open spec fn view(&self) -> CallSiteView {
        CallSiteView {
            file_path: self.file_path@,
            line_number: self.line_number,
            column: self.column,
            function_name: self.function_name@,
            caller_function: match self.caller_function {
                Some(c) => Some(c@),
                None => None,
            },
        }
    }
}

impl Clone for CallSite {
    fn clone(&self) -> (r: Self)
        ensures
            r@ == self@,
    {
        let caller_function = match &self.caller_function {
            Some(c) => Some(c.clone()),
            None => None,
        };
        CallSite {
            file_path: self.file_path.clone(),
            line_number: self.line_number,
            column: self.column,
            function_name: self.function_name.clone(),
            caller_function,
        }
    }
}

/// The views of a sequence of call sites.
pub open spec fn callsites_view(s: Seq<CallSite>) -> Seq<CallSiteView> {
    s.map_values(|c: CallSite| c@)
}

/// The uniform shape of a query answer: the matching items, how many
/// matched, and how long the query took.
pub struct QueryResult<T> {
    pub items: Vec<T>,
    pub total_matches: usize,
    pub query_duration_ms: u64,
}

impl<T> QueryResult<T> {
    pub fn new(items: Vec<T>, total_matches: usize, query_duration_ms: u64) -> (r: Self)
        ensures
            r.items == items,
            r.total_matches == total_matches,
            r.query_duration_ms == query_duration_ms,
    {
        QueryResult { items, total_matches, query_duration_ms }
    }
}

/// Aggregate counters kept in step with the records.
pub struct RepoMapMetadata {
    pub total_files: usize,
    pub total_functions: usize,
    pub total_structs: usize,
    pub total_imports: usize,
    pub total_exports: usize,
    pub languages: Vec<String>,
    pub last_updated: u64,
    pub memory_usage_bytes: usize,
    pub cache_hits: u64,
    pub cache_misses: u64,
}

/// One cached query: its fingerprint, the file indices it touched, and when
/// it was recorded.
pub struct CacheEntry {
    pub key: String,
    pub positions: Vec<usize>,
    pub created_at: u64,
}

/// Sum of function-list lengths over the records.
pub open spec fn total_functions_of(files: Seq<TreeNodeView>) -> nat
    decreases files.len(),
{
    if files.len() == 0 {
        0
    } else {
        total_functions_of(files.drop_last()) + files.last().functions.len()
    }
}

/// Sum of struct-list lengths over the records.
pub open spec fn total_structs_of(files: Seq<TreeNodeView>) -> nat
    decreases files.len(),
{
    if files.len() == 0 {
        0
    } else {
        total_structs_of(files.drop_last()) + files.last().structs.len()
    }
}

/// Sum of import-list lengths over the records.
pub open spec fn total_imports_of(files: Seq<TreeNodeView>) -> nat
    decreases files.len(),
{
    if files.len() == 0 {
        0
    } else {
        total_imports_of(files.drop_last()) + files.last().imports.len()
    }
}

/// Sum of export-list lengths over the records.
pub open spec fn total_exports_of(files: Seq<TreeNodeView>) -> nat
    decreases files.len(),
{
    if files.len() == 0 {
        0
    } else {
        total_exports_of(files.drop_last()) + files.last().exports.len()
    }
}

/// `n` clamped to the `usize` range.
pub open spec fn clamp_usize(n: int) -> int {
    if n > usize::MAX as int {
        usize::MAX as int
    } else {
        n
    }
}

/// The memory estimate reported for a record sequence: a fixed base plus a
/// fixed weight per record and per indexed entry, clamped to `usize`.
pub open spec fn memory_estimate_of(files: Seq<TreeNodeView>) -> int {
    clamp_usize(
        256 + 64 * (files.len() + clamp_usize(total_functions_of(files) as int) + clamp_usize(
            total_structs_of(files) as int,
        ) + clamp_usize(total_imports_of(files) as int) + clamp_usize(
            total_exports_of(files) as int,
        )),
    )
}

/// No two records share a file path.
pub open spec fn paths_unique(files: Seq<TreeNodeView>) -> bool {
    forall|i: int, j: int|
        0 <= i < j < files.len() ==> files[i].file_path != files[j].file_path
}

/// The index of the first record with this path, or -1 when there is none.
pub open spec fn path_index(files: Seq<TreeNodeView>, path: Seq<char>) -> int
    decreases files.len(),
{
    if files.len() == 0 {
        -1
    } else if files[0].file_path == path {
        0
    } else {
        let r = path_index(files.drop_first(), path);
        if r < 0 {
            -1
        } else {
            r + 1
        }
    }
}

/// Some record has this path.
pub open spec fn has_path(files: Seq<TreeNodeView>, path: Seq<char>) -> bool {
    path_index(files, path) >= 0
}

/// The record sequence with the first record of this path removed; the
/// sequence itself when no record has the path.
pub open spec fn remove_path(files: Seq<TreeNodeView>, path: Seq<char>) -> Seq<TreeNodeView>
    decreases files.len(),
{
    if files.len() == 0 {
        files
    } else if files[0].file_path == path {
        files.drop_first()
    } else {
        seq![files[0]] + remove_path(files.drop_first(), path)
    }
}

/// The record sequence after adding `node`: an existing record with the
/// same path is dropped first, and `node` goes to the end.
pub open spec fn files_after_add(files: Seq<TreeNodeView>, node: TreeNodeView) -> Seq<
    TreeNodeView,
> {
    remove_path(files, node.file_path).push(node)
}

pub proof fn lemma_path_index_bounds(files: Seq<TreeNodeView>, path: Seq<char>)
    ensures
        -1 <= path_index(files, path) < files.len(),
        path_index(files, path) >= 0 ==> {
            &&& files[path_index(files, path)].file_path == path
            &&& forall|j: int|
                0 <= j < path_index(files, path) ==> files[j].file_path != path
        },
        path_index(files, path) < 0 ==> forall|j: int|
            0 <= j < files.len() ==> files[j].file_path != path,
    decreases files.len(),
{
    if files.len() > 0 && files[0].file_path != path {
        lemma_path_index_bounds(files.drop_first(), path);
        assert forall|j: int|
            0 <= j < path_index(files, path) implies files[j].file_path != path by {
            if j > 0 {
                assert(files.drop_first()[j - 1] == files[j]);
            }
        }
        if path_index(files, path) < 0 {
            assert forall|j: int|
                0 <= j < files.len() implies files[j].file_path != path by {
                if j > 0 {
                    assert(files.drop_first()[j - 1] == files[j]);
                }
            }
        }
    }
}

pub proof fn lemma_path_index_of_scan(files: Seq<TreeNodeView>, path: Seq<char>, i: int)
    requires
        0 <= i < files.len(),
        files[i].file_path == path,
        forall|j: int| 0 <= j < i ==> files[j].file_path != path,
    ensures
        path_index(files, path) == i,
    decreases files.len(),
{
    if i > 0 {
        assert(files[0].file_path != path);
        assert(files.drop_first()[i - 1] == files[i]);
        assert forall|j: int|
            0 <= j < i - 1 implies files.drop_first()[j].file_path != path by {
            assert(files.drop_first()[j] == files[j + 1]);
        }
        lemma_path_index_of_scan(files.drop_first(), path, i - 1);
    }
}

pub proof fn lemma_remove_path_not_found(files: Seq<TreeNodeView>, path: Seq<char>)
    requires
        path_index(files, path) < 0,
    ensures
        remove_path(files, path) == files,
    decreases files.len(),
{
    if files.len() > 0 {
        assert(files[0].file_path != path);
        lemma_remove_path_not_found(files.drop_first(), path);
        assert(remove_path(files, path) =~= files);
    }
}

pub proof fn lemma_remove_path_at(files: Seq<TreeNodeView>, path: Seq<char>)
    requires
        path_index(files, path) >= 0,
    ensures
        remove_path(files, path) =~= files.subrange(0, path_index(files, path)) + files.subrange(
            path_index(files, path) + 1,
            files.len() as int,
        ),
    decreases files.len(),
{
    lemma_path_index_bounds(files, path);
    if files[0].file_path == path {
        assert(remove_path(files, path) =~= files.subrange(0, 0) + files.subrange(
            1,
            files.len() as int,
        ));
    } else {
        lemma_path_index_bounds(files.drop_first(), path);
        lemma_remove_path_at(files.drop_first(), path);
        assert(remove_path(files, path) =~= files.subrange(0, path_index(files, path))
            + files.subrange(path_index(files, path) + 1, files.len() as int));
    }
}

pub proof fn lemma_remove_path_unique(files: Seq<TreeNodeView>, path: Seq<char>)
    requires
        paths_unique(files),
    ensures
        paths_unique(remove_path(files, path)),
        !has_path(remove_path(files, path), path),
{
    if path_index(files, path) >= 0 {
        let i = path_index(files, path);
        lemma_path_index_bounds(files, path);
        lemma_remove_path_at(files, path);
        let r = remove_path(files, path);
        assert forall|a: int, b: int|
            0 <= a < b < r.len() implies r[a].file_path != r[b].file_path by {
            let a0 = if a < i { a } else { a + 1 };
            let b0 = if b < i { b } else { b + 1 };
            assert(r[a] == files[a0]);
            assert(r[b] == files[b0]);
        }
        assert forall|j: int| 0 <= j < r.len() implies r[j].file_path != path by {
            let j0 = if j < i { j } else { j + 1 };
            assert(r[j] == files[j0]);
            if j0 != i {
                assert(files[i].file_path == path);
            }
        }
        lemma_path_index_bounds(r, path);
    } else {
        lemma_remove_path_not_found(files, path);
        lemma_path_index_bounds(files, path);
        lemma_path_index_bounds(remove_path(files, path), path);
    }
}

pub proof fn lemma_add_preserves_unique(files: Seq<TreeNodeView>, node: TreeNodeView)
    requires
        paths_unique(files),
    ensures
        paths_unique(files_after_add(files, node)),
{
    lemma_remove_path_unique(files, node.file_path);
    let r = remove_path(files, node.file_path);
    lemma_path_index_bounds(r, node.file_path);
    let added = files_after_add(files, node);
    assert forall|a: int, b: int|
        0 <= a < b < added.len() implies added[a].file_path != added[b].file_path by {
        if b < added.len() - 1 {
            assert(added[a] == r[a]);
            assert(added[b] == r[b]);
        } else {
            assert(added[a] == r[a]);
            assert(added[b] == node);
        }
    }
}

pub proof fn lemma_path_index_push(files: Seq<TreeNodeView>, node: TreeNodeView, q: Seq<char>)
    requires
        node.file_path != q,
    ensures
        path_index(files.push(node), q) == path_index(files, q),
    decreases files.len(),
{
    let pushed = files.push(node);
    if files.len() == 0 {
        assert(pushed[0] == node);
        assert(pushed.drop_first() =~= Seq::<TreeNodeView>::empty());
        assert(path_index(pushed.drop_first(), q) == -1);
        assert(path_index(pushed, q) == -1);
        assert(path_index(files, q) == -1);
    } else {
        assert(pushed[0] == files[0]);
        if files[0].file_path != q {
            assert(pushed.drop_first() =~= files.drop_first().push(node));
            lemma_path_index_push(files.drop_first(), node, q);
            assert(path_index(pushed.drop_first(), q) == path_index(files.drop_first(), q));
        } else {
            assert(path_index(pushed, q) == 0);
            assert(path_index(files, q) == 0);
        }
    }
}

/// Removing the record at `p` neither removes nor changes the record at
/// any other path.
pub proof fn lemma_remove_preserves_others(files: Seq<TreeNodeView>, p: Seq<char>, q: Seq<char>)
    requires
        paths_unique(files),
        q != p,
    ensures
        has_path(remove_path(files, p), q) == has_path(files, q),
        has_path(files, q) ==> remove_path(files, p)[path_index(remove_path(files, p), q)]
            == files[path_index(files, q)],
    decreases files.len(),
{
    lemma_path_index_bounds(files, p);
    lemma_path_index_bounds(files, q);
    if path_index(files, p) < 0 {
        lemma_remove_path_not_found(files, p);
    } else {
        let ip = path_index(files, p);
        lemma_remove_path_at(files, p);
        let r = remove_path(files, p);
        if path_index(files, q) >= 0 {
            let iq = path_index(files, q);
            assert(files[iq].file_path == q);
            assert(files[ip].file_path == p);
            if iq < ip {
                assert(r[iq] == files[iq]);
                assert forall|j: int| 0 <= j < iq implies r[j].file_path != q by {
                    assert(r[j] == files[j]);
                }
                lemma_path_index_of_scan(r, q, iq);
            } else {
                assert(r[iq - 1] == files[iq]);
                assert forall|j: int| 0 <= j < iq - 1 implies r[j].file_path != q by {
                    let j0 = if j < ip {
                        j
                    } else {
                        j + 1
                    };
                    assert(r[j] == files[j0]);
                    if j0 != iq {
                        assert(files[j0].file_path != q);
                    }
                }
                lemma_path_index_of_scan(r, q, iq - 1);
            }
        } else {
            assert forall|j: int| 0 <= j < r.len() implies r[j].file_path != q by {
                let j0 = if j < ip {
                    j
                } else {
                    j + 1
                };
                assert(r[j] == files[j0]);
            }
            lemma_path_index_bounds(r, q);
        }
    }
}

/// Adding a record neither removes nor changes the record at any other
/// path, and makes its own record the one found at its path.
pub proof fn lemma_add_preserves_others(files: Seq<TreeNodeView>, node: TreeNodeView, q: Seq<char>)
    requires
        paths_unique(files),
        q != node.file_path,
    ensures
        has_path(files_after_add(files, node), q) == has_path(files, q),
        has_path(files, q) ==> files_after_add(files, node)[path_index(
            files_after_add(files, node),
            q,
        )] == files[path_index(files, q)],
{
    let r = remove_path(files, node.file_path);
    lemma_remove_preserves_others(files, node.file_path, q);
    lemma_path_index_push(r, node, q);
    lemma_path_index_bounds(r, q);
    if has_path(files, q) {
        assert(files_after_add(files, node)[path_index(r, q)] == r[path_index(r, q)]);
    }
}

/// The added record is the one found at its own path afterwards.
pub proof fn lemma_add_found_self(files: Seq<TreeNodeView>, node: TreeNodeView)
    requires
        paths_unique(files),
    ensures
        has_path(files_after_add(files, node), node.file_path),
        files_after_add(files, node)[path_index(files_after_add(files, node), node.file_path)]
            == node,
{
    let r = remove_path(files, node.file_path);
    lemma_remove_path_unique(files, node.file_path);
    lemma_path_index_bounds(r, node.file_path);
    let after = files_after_add(files, node);
    assert(after[r.len() as int] == node);
    assert forall|j: int| 0 <= j < r.len() implies after[j].file_path != node.file_path by {
        assert(after[j] == r[j]);
    }
    lemma_path_index_of_scan(after, node.file_path, r.len() as int);
}

/// The index of the first occurrence of `l` among the names, or -1.
pub open spec fn lang_index(langs: Seq<Seq<char>>, l: Seq<char>) -> int
    decreases langs.len(),
{
    if langs.len() == 0 {
        -1
    } else if langs[0] == l {
        0
    } else {
        let r = lang_index(langs.drop_first(), l);
        if r < 0 {
            -1
        } else {
            r + 1
        }
    }
}

/// `langs` with `l` appended unless already present.
pub open spec fn add_language(langs: Seq<Seq<char>>, l: Seq<char>) -> Seq<Seq<char>> {
    if lang_index(langs, l) >= 0 {
        langs
    } else {
        langs.push(l)
    }
}

/// The distinct languages of the records, in first-appearance order.
pub open spec fn languages_of(files: Seq<TreeNodeView>) -> Seq<Seq<char>>
    decreases files.len(),
{
    if files.len() == 0 {
        Seq::empty()
    } else {
        add_language(languages_of(files.drop_last()), files.last().language)
    }
}

pub proof fn lemma_lang_index_bounds(langs: Seq<Seq<char>>, l: Seq<char>)
    ensures
        -1 <= lang_index(langs, l) < langs.len(),
        lang_index(langs, l) >= 0 ==> langs[lang_index(langs, l)] == l,
        lang_index(langs, l) < 0 ==> forall|b: int| 0 <= b < langs.len() ==> langs[b] != l,
    decreases langs.len(),
{
    if langs.len() > 0 && langs[0] != l {
        lemma_lang_index_bounds(langs.drop_first(), l);
        if lang_index(langs, l) < 0 {
            assert forall|b: int| 0 <= b < langs.len() implies langs[b] != l by {
                if b > 0 {
                    assert(langs.drop_first()[b - 1] == langs[b]);
                }
            }
        }
    }
}

pub proof fn lemma_lang_index_found(langs: Seq<Seq<char>>, l: Seq<char>, a: int)
    requires
        0 <= a < langs.len(),
        langs[a] == l,
    ensures
        lang_index(langs, l) >= 0,
    decreases langs.len(),
{
    if langs[0] != l {
        assert(langs.drop_first()[a - 1] == langs[a]);
        lemma_lang_index_found(langs.drop_first(), l, a - 1);
    }
}

/// The language names are pairwise distinct and are exactly the languages
/// of the records.
pub proof fn lemma_languages_of_distinct(files: Seq<TreeNodeView>, a: int, b: int)
    requires
        0 <= a < b < languages_of(files).len(),
    ensures
        languages_of(files)[a] != languages_of(files)[b],
    decreases files.len(),
{
    if files.len() > 0 {
        let prev = languages_of(files.drop_last());
        let l = files.last().language;
        lemma_lang_index_bounds(prev, l);
        if lang_index(prev, l) >= 0 {
            lemma_languages_of_distinct(files.drop_last(), a, b);
        } else {
            if b < prev.len() {
                lemma_languages_of_distinct(files.drop_last(), a, b);
            } else {
                assert(languages_of(files)[a] == prev[a]);
                assert(languages_of(files)[b] == l);
            }
        }
    }
}

pub proof fn lemma_language_listed(files: Seq<TreeNodeView>, k: int)
    requires
        0 <= k < files.len(),
    ensures
        lang_index(languages_of(files), files[k].language) >= 0,
    decreases files.len(),
{
    let prev = languages_of(files.drop_last());
    let l = files.last().language;
    lemma_lang_index_bounds(prev, l);
    if k == files.len() - 1 {
        if lang_index(prev, l) < 0 {
            lemma_lang_index_found(languages_of(files), l, prev.len() as int);
        }
    } else {
        assert(files.drop_last()[k] == files[k]);
        lemma_language_listed(files.drop_last(), k);
        lemma_lang_index_bounds(prev, files[k].language);
        let a = lang_index(prev, files[k].language);
        if lang_index(prev, l) < 0 {
            assert(languages_of(files)[a] == prev[a]);
            lemma_lang_index_found(languages_of(files), files[k].language, a);
        }
    }
}

pub proof fn lemma_listed_language_of_record(files: Seq<TreeNodeView>, a: int)
    requires
        0 <= a < languages_of(files).len(),
    ensures
        exists|k: int| 0 <= k < files.len() && (#[trigger] files[k]).language == languages_of(
            files,
        )[a],
    decreases files.len(),
{
    let prev = languages_of(files.drop_last());
    let l = files.last().language;
    lemma_lang_index_bounds(prev, l);
    if a < prev.len() {
        lemma_listed_language_of_record(files.drop_last(), a);
        let k = choose|k: int|
            0 <= k < files.drop_last().len() && (#[trigger] files.drop_last()[k]).language
                == prev[a];
        assert(files[k] == files.drop_last()[k]);
        assert(languages_of(files)[a] == prev[a]);
        assert(0 <= k < files.len() && files[k].language == languages_of(files)[a]);
    } else {
        let k = files.len() - 1;
        assert(languages_of(files)[a] == l);
        assert(0 <= k < files.len() && files[k].language == languages_of(files)[a]);
    }
}

/// The views of a sequence of strings.
pub open spec fn strings_view(s: Seq<String>) -> Seq<Seq<char>> {
    s.map_values(|x: String| x@)
}

/// The one-line summary of the index: its record count, the aggregate
/// function and struct counters, and the language names joined.
pub open spec fn map_summary_text(m: &RepoMap) -> Seq<char> {
    "Repository Map: "@ + u64_digits(m@.len() as u64) + " files | "@ + u64_digits(
        m.metadata.total_functions as u64,
    ) + " functions | "@ + u64_digits(m.metadata.total_structs as u64)
        + " structs | Languages: ["@ + crate::types::joined_texts(
        strings_view(m.metadata.languages@),
    ) + "]"@
}

/// Fast lookups over the per-file records: the dense record store, aggregate
/// metadata, the capacity and cache configuration, and the query cache.
pub struct RepoMap {
    pub files: Vec<TreeNode>,
    pub metadata: RepoMapMetadata,
    pub max_files: Option<usize>,
    pub cache_ttl_seconds: u64,
    pub query_cache: Vec<CacheEntry>,
}

impl View for RepoMap {
    type V = Seq<TreeNodeView>;

    open spec fn view(&self) -> Seq<TreeNodeView> {
        nodes_view(self.files@)
    }
}

impl RepoMap {
    /// The metadata counters agree with the records, no two records share a
    /// path, and every cached file index is in bounds.
    pub open spec fn wf(&self) -> bool {
        &&& paths_unique(self@)
        &&& self.metadata.total_files == self@.len()
        &&& self.metadata.total_functions as int == clamp_usize(total_functions_of(self@) as int)
        &&& self.metadata.total_structs as int == clamp_usize(total_structs_of(self@) as int)
        &&& self.metadata.total_imports as int == clamp_usize(total_imports_of(self@) as int)
        &&& self.metadata.total_exports as int == clamp_usize(total_exports_of(self@) as int)
        &&& strings_view(self.metadata.languages@) == languages_of(self@)
        &&& self.metadata.memory_usage_bytes as int == memory_estimate_of(self@)
        &&& forall|i: int|
            0 <= i < self.query_cache.len() ==> forall|j: int|
                0 <= j < (#[trigger] self.query_cache@[i]).positions.len()
                    ==> (self.query_cache@[i].positions@[j] as int) < self@.len()
    }

    pub fn new() -> (r: Self)
        ensures
            r.wf(),
            r@ =~= Seq::<TreeNodeView>::empty(),
            r.max_files is None,
            r.cache_ttl_seconds == 300,
            r.query_cache@.len() == 0,
            r.metadata.total_files == 0,
            r.metadata.total_functions == 0,
            r.metadata.total_structs == 0,
            r.metadata.total_imports == 0,
            r.metadata.total_exports == 0,
            r.metadata.languages@.len() == 0,
            r.metadata.last_updated == 0,
            r.metadata.cache_hits == 0,
            r.metadata.cache_misses == 0,
    {
        let r = RepoMap {
            files: Vec::new(),
            metadata: RepoMapMetadata {
                total_files: 0,
                total_functions: 0,
                total_structs: 0,
                total_imports: 0,
                total_exports: 0,
                languages: Vec::new(),
                last_updated: 0,
                memory_usage_bytes: 256,
                cache_hits: 0,
                cache_misses: 0,
            },
            max_files: None,
            cache_ttl_seconds: 300,
            query_cache: Vec::new(),
        };
        proof {
            assert(r@ =~= Seq::<TreeNodeView>::empty());
            assert(r.metadata.memory_usage_bytes as int == memory_estimate_of(r@));
            assert(strings_view(r.metadata.languages@) =~= languages_of(r@));
        }
        r
    }

    /// Bounds the number of records the index will hold.
    pub fn with_max_files(self, max_files: usize) -> (r: Self)
        ensures
            r.max_files == Some(max_files),
            r.files == self.files,
            r.metadata == self.metadata,
            r.cache_ttl_seconds == self.cache_ttl_seconds,
            r.query_cache == self.query_cache,
            self.wf() ==> r.wf(),
    {
        let mut r = self;
        r.max_files = Some(max_files);
        r
    }

    /// Sets the time-to-live of cached query snapshots.
    pub fn with_cache_ttl(self, ttl_seconds: u64) -> (r: Self)
        ensures
            r.cache_ttl_seconds == ttl_seconds,
            r.files == self.files,
            r.metadata == self.metadata,
            r.max_files == self.max_files,
            r.query_cache == self.query_cache,
            self.wf() ==> r.wf(),
    {
        let mut r = self;
        r.cache_ttl_seconds = ttl_seconds;
        r
    }

    /// Whether adding a record for `path` would overrun `max_files`.
    pub open spec fn add_would_exceed(&self, path: Seq<char>) -> bool {
        match self.max_files {
            Some(max) => self@.len() >= max && !has_path(self@, path),
            None => false,
        }
    }

    fn has_file(&self, path: &str) -> (r: bool)
        ensures
            r == has_path(self@, path@),
    {
        let mut i: usize = 0;
        while i < self.files.len()
            invariant
                i <= self.files.len(),
                forall|j: int| 0 <= j < i ==> self@[j].file_path != path@,
            decreases self.files.len() - i,
        {
            if str_eq(self.files[i].file_path.as_str(), path) {
                proof {
                    lemma_path_index_of_scan(self@, path@, i as int);
                }
                return true;
            }
            i = i + 1;
        }
        proof {
            lemma_path_index_bounds(self@, path@);
        }
        false
    }

    /// Removes the first record with this path, touching nothing else.
    fn remove_record(&mut self, path: &str)
        ensures
            final(self)@ == remove_path(old(self)@, path@),
            final(self).metadata == old(self).metadata,
            final(self).max_files == old(self).max_files,
            final(self).cache_ttl_seconds == old(self).cache_ttl_seconds,
            final(self).query_cache == old(self).query_cache,
    {
        let ghost files0 = self@;
        let mut i: usize = 0;
        while i < self.files.len()
            invariant
                self@ == files0,
                self.files == old(self).files,
                self.metadata == old(self).metadata,
                self.max_files == old(self).max_files,
                self.cache_ttl_seconds == old(self).cache_ttl_seconds,
                self.query_cache == old(self).query_cache,
                i <= self.files.len(),
                forall|j: int| 0 <= j < i ==> self@[j].file_path != path@,
            decreases self.files.len() - i,
        {
            if str_eq(self.files[i].file_path.as_str(), path) {
                proof {
                    lemma_path_index_of_scan(files0, path@, i as int);
                    lemma_remove_path_at(files0, path@);
                }
                self.files.remove(i);
                proof {
                    assert(self@ =~= files0.subrange(0, i as int) + files0.subrange(
                        i + 1,
                        files0.len() as int,
                    ));
                }
                return;
            }
            i = i + 1;
        }
        proof {
            lemma_path_index_bounds(files0, path@);
            lemma_remove_path_not_found(files0, path@);
        }
    }

    /// Recomputes every metadata counter from the records. The
    /// `last_updated` stamp is read from the wall clock.
    fn update_metadata(&mut self)
        ensures
            final(self).files == old(self).files,
            final(self).max_files == old(self).max_files,
            final(self).cache_ttl_seconds == old(self).cache_ttl_seconds,
            final(self).query_cache == old(self).query_cache,
            final(self).metadata.cache_hits == old(self).metadata.cache_hits,
            final(self).metadata.cache_misses == old(self).metadata.cache_misses,
            final(self).metadata.total_files == final(self)@.len(),
            final(self).metadata.total_functions as int == clamp_usize(
                total_functions_of(final(self)@) as int,
            ),
            final(self).metadata.total_structs as int == clamp_usize(
                total_structs_of(final(self)@) as int,
            ),
            final(self).metadata.total_imports as int == clamp_usize(
                total_imports_of(final(self)@) as int,
            ),
            final(self).metadata.total_exports as int == clamp_usize(
                total_exports_of(final(self)@) as int,
            ),
            strings_view(final(self).metadata.languages@) == languages_of(final(self)@),
            final(self).metadata.memory_usage_bytes as int == memory_estimate_of(final(self)@),
    {
        let total_files = self.files.len();
        let (tf, ts, ti, te) = self.sum_counts();
        let languages = self.collect_languages();
        let memory = self.estimate_memory();
        let now = crate::clock::now_unix_millis() / 1000;
        self.metadata = RepoMapMetadata {
            total_files,
            total_functions: clamp_to_usize(tf),
            total_structs: clamp_to_usize(ts),
            total_imports: clamp_to_usize(ti),
            total_exports: clamp_to_usize(te),
            languages,
            last_updated: now,
            memory_usage_bytes: memory,
            cache_hits: self.metadata.cache_hits,
            cache_misses: self.metadata.cache_misses,
        };
    }

    /// Sums the four per-record list lengths without overflow.
    fn sum_counts(&self) -> (r: (u128, u128, u128, u128))
        ensures
            r.0 == total_functions_of(self@),
            r.1 == total_structs_of(self@),
            r.2 == total_imports_of(self@),
            r.3 == total_exports_of(self@),
    {
        let mut tf: u128 = 0;
        let mut ts: u128 = 0;
        let mut ti: u128 = 0;
        let mut te: u128 = 0;
        let mut i: usize = 0;
        while i < self.files.len()
            invariant
                i <= self.files.len(),
                tf == total_functions_of(self@.subrange(0, i as int)),
                ts == total_structs_of(self@.subrange(0, i as int)),
                ti == total_imports_of(self@.subrange(0, i as int)),
                te == total_exports_of(self@.subrange(0, i as int)),
                tf <= (i as int) * (u64::MAX as int),
                ts <= (i as int) * (u64::MAX as int),
                ti <= (i as int) * (u64::MAX as int),
                te <= (i as int) * (u64::MAX as int),
            decreases self.files.len() - i,
        {
            proof {
                assert(self@.subrange(0, i + 1).drop_last() =~= self@.subrange(0, i as int));
                assert(self@.subrange(0, i + 1).last() == self@[i as int]);
            }
            let nf = self.files[i].functions.len();
            let ns = self.files[i].structs.len();
            let ni = self.files[i].imports.len();
            let ne = self.files[i].exports.len();
            proof {
                assert(self@[i as int].functions.len() == self.files@[i as int].functions@.len());
                assert(self@[i as int].structs.len() == self.files@[i as int].structs@.len());
                assert(self@[i as int].imports.len() == self.files@[i as int].imports@.len());
                assert(self@[i as int].exports.len() == self.files@[i as int].exports@.len());
            }
            proof {
                assert(nf <= u64::MAX && ns <= u64::MAX && ni <= u64::MAX && ne <= u64::MAX);
                assert((i as int) * (u64::MAX as int) + (u64::MAX as int) == ((i as int) + 1) * (
                u64::MAX as int)) by (nonlinear_arith);
                assert(((i as int) + 1) * (u64::MAX as int) <= (u64::MAX as int) * (u64::MAX as int)
                    + (u64::MAX as int)) by (nonlinear_arith)
                    requires (i as int) + 1 <= (u64::MAX as int) + 1;
            }
            tf = tf + nf as u128;
            ts = ts + ns as u128;
            ti = ti + ni as u128;
            te = te + ne as u128;
            i = i + 1;
        }
        proof {
            assert(self@.subrange(0, self@.len() as int) =~= self@);
        }
        (tf, ts, ti, te)
    }

    /// The distinct languages of the records, in first-appearance order.
    fn collect_languages(&self) -> (r: Vec<String>)
        ensures
            strings_view(r@) == languages_of(self@),
    {
        let mut langs: Vec<String> = Vec::new();
        let mut i: usize = 0;
        while i < self.files.len()
            invariant
                i <= self.files.len(),
                strings_view(langs@) == languages_of(self@.subrange(0, i as int)),
            decreases self.files.len() - i,
        {
            let ghost pre = strings_view(langs@);
            proof {
                assert(self@.subrange(0, i + 1).drop_last() =~= self@.subrange(0, i as int));
                assert(self@.subrange(0, i + 1).last() == self@[i as int]);
                assert(self@[i as int].language == self.files@[i as int].language@);
            }
            let lang = &self.files[i].language;
            let mut seen = false;
            let mut a: usize = 0;
            while a < langs.len()
                invariant
                    a <= langs.len(),
                    pre == strings_view(langs@),
                    pre.len() == langs@.len(),
                    seen ==> lang_index(pre, lang@) >= 0,
                    !seen ==> forall|b: int| 0 <= b < a ==> pre[b] != lang@,
                decreases langs.len() - a,
            {
                proof {
                    assert(pre[a as int] == langs@[a as int]@);
                }
                if !seen && str_eq(langs[a].as_str(), lang.as_str()) {
                    proof {
                        lemma_lang_index_found(pre, lang@, a as int);
                    }
                    seen = true;
                }
                a = a + 1;
            }
            if !seen {
                proof {
                    lemma_lang_index_bounds(pre, lang@);
                    if lang_index(pre, lang@) >= 0 {
                        assert(pre[lang_index(pre, lang@)] == lang@);
                    }
                }
                langs.push(lang.clone());
                proof {
                    assert(strings_view(langs@) =~= pre.push(lang@));
                    assert(strings_view(langs@) =~= languages_of(self@.subrange(0, i + 1)));
                }
            } else {
                proof {
                    assert(strings_view(langs@) =~= languages_of(self@.subrange(0, i + 1)));
                }
            }
            i = i + 1;
        }
        proof {
            assert(self@.subrange(0, self@.len() as int) =~= self@);
        }
        langs
    }

    /// The clamped memory estimate for the current records.
    fn estimate_memory(&self) -> (r: usize)
        ensures
            r as int == memory_estimate_of(self@),
    {
        let (tf, ts, ti, te) = self.sum_counts();
        let entries: u128 = self.files.len() as u128 + clamp_to_usize(tf) as u128 + clamp_to_usize(
            ts,
        ) as u128 + clamp_to_usize(ti) as u128 + clamp_to_usize(te) as u128;
        let raw: u128 = 256 + 64 * entries;
        clamp_to_usize(raw)
    }

    /// Number of records in the index.
    pub fn file_count(&self) -> (r: usize)
        ensures
            r == self@.len(),
    {
        self.files.len()
    }

    /// Whether the index holds no records.
    pub fn is_empty(&self) -> (r: bool)
        ensures
            r == (self@.len() == 0),
    {
        self.files.is_empty()
    }

    /// The records, in storage order.
    pub fn get_all_files(&self) -> (r: &Vec<TreeNode>)
        ensures
            r == &self.files,
    {
        &self.files
    }

    /// The aggregate metadata.
    pub fn get_metadata(&self) -> (r: &RepoMapMetadata)
        ensures
            r == &self.metadata,
    {
        &self.metadata
    }

    /// Drops every cached query snapshot.
    pub fn clear_cache(&mut self)
        ensures
            final(self).query_cache@.len() == 0,
            final(self).files == old(self).files,
            final(self).metadata == old(self).metadata,
            final(self).max_files == old(self).max_files,
            final(self).cache_ttl_seconds == old(self).cache_ttl_seconds,
            old(self).wf() ==> final(self).wf(),
    {
        self.query_cache.clear();
    }

    /// Renders the index's one-line summary.
    pub fn summary(&self) -> (r: String)
        ensures
            r@ == map_summary_text(self),
    {
        let mut names: Vec<String> = Vec::new();
        let ghost lv = strings_view(self.metadata.languages@);
        let mut li: usize = 0;
        while li < self.metadata.languages.len()
            invariant
                li <= self.metadata.languages.len(),
                lv == strings_view(self.metadata.languages@),
                lv.len() == self.metadata.languages@.len(),
                strings_view(names@) =~= lv.subrange(0, li as int),
            decreases self.metadata.languages.len() - li,
        {
            proof {
                assert(self.metadata.languages@[li as int]@ == lv[li as int]);
            }
            let ghost pre = strings_view(names@);
            let entry = self.metadata.languages[li].clone();
            proof {
                assert(entry@ == lv[li as int]);
            }
            names.push(entry);
            proof {
                assert(strings_view(names@) =~= pre.push(lv[li as int]));
                assert(pre.push(lv[li as int]) =~= lv.subrange(0, li + 1));
            }
            li = li + 1;
        }
        proof {
            assert(lv.subrange(0, lv.len() as int) =~= lv);
        }
        let joined = crate::types::join_strings(names);
        let mut out = "Repository Map: ".to_owned();
        out.append(crate::text::usize_to_string(self.files.len()).as_str());
        out.append(" files | ");
        out.append(crate::text::usize_to_string(self.metadata.total_functions).as_str());
        out.append(" functions | ");
        out.append(crate::text::usize_to_string(self.metadata.total_structs).as_str());
        out.append(" structs | Languages: [");
        out.append(joined.as_str());
        out.append("]");
        proof {
            assert(out@ =~= map_summary_text(self));
        }
        out
    }

    /// The current memory estimate, recomputed from the records.
    pub fn get_memory_usage(&self) -> (r: usize)
        ensures
            r as int == memory_estimate_of(self@),
    {
        self.estimate_memory()
    }

    /// The current memory estimate, recomputed from the records.
    pub fn memory_usage(&self) -> (r: usize)
        ensures
            r as int == memory_estimate_of(self@),
    {
        self.get_memory_usage()
    }

    /// Adds `tree_node`, replacing any record of the same path. Fails with
    /// `CapacityExceeded`, leaving the index untouched, exactly when the
    /// path is new and the index already holds `max_files` records.
    pub fn add_file(&mut self, tree_node: TreeNode) -> (r: Result<(), AnalysisError>)
        requires
            old(self).wf(),
        ensures
            final(self).wf(),
            final(self).max_files == old(self).max_files,
            final(self).cache_ttl_seconds == old(self).cache_ttl_seconds,
            final(self).metadata.cache_hits == old(self).metadata.cache_hits,
            final(self).metadata.cache_misses == old(self).metadata.cache_misses,
            match r {
                Ok(()) => {
                    &&& !old(self).add_would_exceed(tree_node@.file_path)
                    &&& final(self)@ == files_after_add(old(self)@, tree_node@)
                    &&& final(self).query_cache@.len() == 0
                },
                Err(e) => {
                    &&& old(self).add_would_exceed(tree_node@.file_path)
                    &&& *final(self) == *old(self)
                    &&& e matches AnalysisError::CapacityExceeded(m) && m@ == capacity_message(
                        old(self).max_files->Some_0 as u64,
                    )
                },
            },
    {
        match self.max_files {
            Some(max) => {
                if self.files.len() >= max && !self.has_file(tree_node.file_path.as_str()) {
                    let mut msg = "Maximum file limit (".to_owned();
                    msg.append(u64_to_string(max as u64).as_str());
                    msg.append(") reached");
                    proof {
                        assert(msg@ =~= capacity_message(max as u64));
                    }
                    return Err(AnalysisError::CapacityExceeded(msg));
                }
            },
            None => {},
        }
        let ghost files0 = self@;
        let ghost nodev = tree_node@;
        self.remove_record(tree_node.file_path.as_str());
        self.files.push(tree_node);
        proof {
            assert(self@ =~= remove_path(files0, nodev.file_path).push(nodev));
            lemma_add_preserves_unique(files0, nodev);
        }
        self.update_metadata();
        self.query_cache.clear();
        Ok(())
    }

    /// Removes the record with this path. Returns `Ok(true)` exactly when a
    /// record was removed; an absent path leaves the index untouched.
    pub fn remove_file(&mut self, file_path: &str) -> (r: Result<bool, AnalysisError>)
        requires
            old(self).wf(),
        ensures
            final(self).wf(),
            final(self).max_files == old(self).max_files,
            final(self).cache_ttl_seconds == old(self).cache_ttl_seconds,
            final(self).metadata.cache_hits == old(self).metadata.cache_hits,
            final(self).metadata.cache_misses == old(self).metadata.cache_misses,
            final(self)@ == remove_path(old(self)@, file_path@),
            r matches Ok(b) && (b == has_path(old(self)@, file_path@)),
            has_path(old(self)@, file_path@) ==> final(self).query_cache@.len() == 0,
            !has_path(old(self)@, file_path@) ==> *final(self) == *old(self),
    {
        let ghost files0 = self@;
        if self.has_file(file_path) {
            self.remove_record(file_path);
            proof {
                lemma_remove_path_unique(files0, file_path@);
            }
            self.update_metadata();
            self.query_cache.clear();
            Ok(true)
        } else {
            proof {
                lemma_path_index_bounds(files0, file_path@);
                lemma_remove_path_not_found(files0, file_path@);
            }
            Ok(false)
        }
    }

    /// The record with this path, when present.
    pub fn get_file(&self, file_path: &str) -> (r: Option<&TreeNode>)
        ensures
            match r {
                Some(node) => {
                    &&& has_path(self@, file_path@)
                    &&& node@ == self@[path_index(self@, file_path@)]
                },
                None => !has_path(self@, file_path@),
            },
    {
        let mut i: usize = 0;
        while i < self.files.len()
            invariant
                i <= self.files.len(),
                forall|j: int| 0 <= j < i ==> self@[j].file_path != file_path@,
            decreases self.files.len() - i,
        {
            if str_eq(self.files[i].file_path.as_str(), file_path) {
                proof {
                    lemma_path_index_of_scan(self@, file_path@, i as int);
                }
                return Some(&self.files[i]);
            }
            i = i + 1;
        }
        proof {
            lemma_path_index_bounds(self@, file_path@);
        }
        None
    }
}

/// Clamps a `u128` to `usize`.
fn clamp_to_usize(n: u128) -> (r: usize)
    ensures
        r as int == clamp_usize(n as int),
{
    if n > usize::MAX as u128 {
        usize::MAX
    } else {
        n as usize
    }
}
} // verus!

verus! {

/// Whether a function answers `pattern` in the given tier.
pub open spec fn fn_matches(f: FunctionSignatureView, pattern: Seq<char>, tier: int) -> bool {
    tier_of(f.name, pattern) == tier
}

/// The functions of one record that answer `pattern`, in record order.
pub open spec fn fns_matching_in(
    fns: Seq<FunctionSignatureView>,
    pattern: Seq<char>,
    tier: int,
) -> Seq<FunctionSignatureView>
    decreases fns.len(),
{
    if fns.len() == 0 {
        Seq::empty()
    } else {
        fns_matching_in(fns.drop_last(), pattern, tier) + if fn_matches(
            fns.last(),
            pattern,
            tier,
        ) {
            seq![fns.last()]
        } else {
            Seq::empty()
        }
    }
}

/// All functions answering `pattern`, in storage order.
pub open spec fn fns_matching(
    files: Seq<TreeNodeView>,
    pattern: Seq<char>,
    tier: int,
) -> Seq<FunctionSignatureView>
    decreases files.len(),
{
    if files.len() == 0 {
        Seq::empty()
    } else {
        fns_matching(files.drop_last(), pattern, tier) + fns_matching_in(
            files.last().functions,
            pattern,
            tier,
        )
    }
}

/// What a function query answers: the exactly-named functions first, then
/// the case-insensitive matches, then the regex and substring matches;
/// within a tier, storage order.
pub open spec fn found_functions(files: Seq<TreeNodeView>, pattern: Seq<char>) -> Seq<
    FunctionSignatureView,
> {
    fns_matching(files, pattern, 1) + fns_matching(files, pattern, 2) + fns_matching(
        files,
        pattern,
        3,
    )
}

/// Whether a struct answers `pattern` in the given tier.
pub open spec fn struct_matches(f: StructSignatureView, pattern: Seq<char>, tier: int) -> bool {
    tier_of(f.name, pattern) == tier
}

/// The structs of one record that answer `pattern`, in record order.
pub open spec fn structs_matching_in(
    ss: Seq<StructSignatureView>,
    pattern: Seq<char>,
    tier: int,
) -> Seq<StructSignatureView>
    decreases ss.len(),
{
    if ss.len() == 0 {
        Seq::empty()
    } else {
        structs_matching_in(ss.drop_last(), pattern, tier) + if struct_matches(
            ss.last(),
            pattern,
            tier,
        ) {
            seq![ss.last()]
        } else {
            Seq::empty()
        }
    }
}

/// All structs answering `pattern`, in storage order.
pub open spec fn structs_matching(
    files: Seq<TreeNodeView>,
    pattern: Seq<char>,
    tier: int,
) -> Seq<StructSignatureView>
    decreases files.len(),
{
    if files.len() == 0 {
        Seq::empty()
    } else {
        structs_matching(files.drop_last(), pattern, tier) + structs_matching_in(
            files.last().structs,
            pattern,
            tier,
        )
    }
}

/// What a struct query answers, tiered as `found_functions` is.
pub open spec fn found_structs(files: Seq<TreeNodeView>, pattern: Seq<char>) -> Seq<
    StructSignatureView,
> {
    structs_matching(files, pattern, 1) + structs_matching(files, pattern, 2) + structs_matching(
        files,
        pattern,
        3,
    )
}

/// The imports of one record whose path answers `pattern`.
pub open spec fn imports_matching_in(
    imps: Seq<ImportStatementView>,
    pattern: Seq<char>,
) -> Seq<ImportStatementView>
    decreases imps.len(),
{
    if imps.len() == 0 {
        Seq::empty()
    } else {
        imports_matching_in(imps.drop_last(), pattern) + if matches_spec(
            imps.last().import_path,
            pattern,
        ) {
            seq![imps.last()]
        } else {
            Seq::empty()
        }
    }
}

/// All imports whose path answers `pattern`, in storage order.
pub open spec fn imports_matching(files: Seq<TreeNodeView>, pattern: Seq<char>) -> Seq<
    ImportStatementView,
>
    decreases files.len(),
{
    if files.len() == 0 {
        Seq::empty()
    } else {
        imports_matching(files.drop_last(), pattern) + imports_matching_in(
            files.last().imports,
            pattern,
        )
    }
}

/// The exports of one record whose item answers `pattern`.
pub open spec fn exports_matching_in(
    exps: Seq<ExportStatementView>,
    pattern: Seq<char>,
) -> Seq<ExportStatementView>
    decreases exps.len(),
{
    if exps.len() == 0 {
        Seq::empty()
    } else {
        exports_matching_in(exps.drop_last(), pattern) + if matches_spec(
            exps.last().exported_item,
            pattern,
        ) {
            seq![exps.last()]
        } else {
            Seq::empty()
        }
    }
}

/// All exports whose item answers `pattern`, in storage order.
pub open spec fn exports_matching(files: Seq<TreeNodeView>, pattern: Seq<char>) -> Seq<
    ExportStatementView,
>
    decreases files.len(),
{
    if files.len() == 0 {
        Seq::empty()
    } else {
        exports_matching(files.drop_last(), pattern) + exports_matching_in(
            files.last().exports,
            pattern,
        )
    }
}

/// The call sites of one record whose callee is `name`.
pub open spec fn callsites_in(
    node: TreeNodeView,
    calls: Seq<FunctionCallView>,
    name: Seq<char>,
) -> Seq<CallSiteView>
    decreases calls.len(),
{
    if calls.len() == 0 {
        Seq::empty()
    } else {
        callsites_in(node, calls.drop_last(), name) + if calls.last().function_name == name {
            seq![
                CallSiteView {
                    file_path: node.file_path,
                    line_number: calls.last().line_number,
                    column: calls.last().column,
                    function_name: calls.last().function_name,
                    caller_function: calls.last().caller_function,
                },
            ]
        } else {
            Seq::empty()
        }
    }
}

/// Every recorded call of `name`, in storage order.
pub open spec fn callsites_for(files: Seq<TreeNodeView>, name: Seq<char>) -> Seq<CallSiteView>
    decreases files.len(),
{
    if files.len() == 0 {
        Seq::empty()
    } else {
        callsites_for(files.drop_last(), name) + callsites_in(
            files.last(),
            files.last().function_calls,
            name,
        )
    }
}

/// The records of one language, in storage order.
pub open spec fn files_with_language(files: Seq<TreeNodeView>, lang: Seq<char>) -> Seq<
    TreeNodeView,
>
    decreases files.len(),
{
    if files.len() == 0 {
        Seq::empty()
    } else {
        files_with_language(files.drop_last(), lang) + if files.last().language == lang {
            seq![files.last()]
        } else {
            Seq::empty()
        }
    }
}

/// The records modified strictly after `since`, in storage order.
pub open spec fn files_changed_since(files: Seq<TreeNodeView>, since: u64) -> Seq<TreeNodeView>
    decreases files.len(),
{
    if files.len() == 0 {
        Seq::empty()
    } else {
        files_changed_since(files.drop_last(), since) + if files.last().last_modified > since {
            seq![files.last()]
        } else {
            Seq::empty()
        }
    }
}

/// The import paths of one record, in record order.
pub open spec fn import_paths_of(imps: Seq<ImportStatementView>) -> Seq<Seq<char>> {
    imps.map_values(|i: ImportStatementView| i.import_path)
}

/// The first `n` elements of `s`, or all of them when fewer.
pub open spec fn take_up_to<A>(s: Seq<A>, n: int) -> Seq<A> {
    if n < 0 {
        Seq::empty()
    } else if n >= s.len() {
        s
    } else {
        s.subrange(0, n)
    }
}

impl RepoMap {
    /// Decides the crate-wide matching policy for one candidate name.
    pub fn matches_pattern(&self, text: &str, pattern: &str) -> (r: bool)
        ensures
            r == matches_spec(text@, pattern@),
    {
        matches_pattern(text, pattern)
    }

    fn collect_functions(&self, pattern: &str, tier: u8) -> (r: Vec<FunctionSignature>)
        ensures
            fns_view(r@) == fns_matching(self@, pattern@, tier as int),
    {
        let mut out: Vec<FunctionSignature> = Vec::new();
        let mut i: usize = 0;
        while i < self.files.len()
            invariant
                i <= self.files.len(),
                fns_view(out@) == fns_matching(self@.subrange(0, i as int), pattern@, tier as int),
            decreases self.files.len() - i,
        {
            let file = &self.files[i];
            proof {
                assert(file@ == self@[i as int]);
            }
            let mut j: usize = 0;
            while j < file.functions.len()
                invariant
                    i < self.files.len(),
                    file == &self.files[i as int],
                    file@ == self@[i as int],
                    j <= file.functions.len(),
                    fns_view(out@) == fns_matching(self@.subrange(0, i as int), pattern@, tier as int)
                        + fns_matching_in(
                        self@[i as int].functions.subrange(0, j as int),
                        pattern@,
                        tier as int,
                    ),
                decreases file.functions.len() - j,
            {
                let func = &file.functions[j];
                let hit = match_tier(func.name.as_str(), pattern) == tier;
                let ghost pre = fns_view(out@);
                let ghost fseq = self@[i as int].functions;
                proof {
                    assert(func@ == fseq[j as int]);
                    assert(fseq.subrange(0, j + 1).drop_last() =~= fseq.subrange(0, j as int));
                    assert(fseq.subrange(0, j + 1).last() == fseq[j as int]);
                }
                if hit {
                    out.push(func.clone());
                    proof {
                        assert(fns_view(out@) =~= pre + seq![fseq[j as int]]);
                    }
                } else {
                    proof {
                        assert(fns_matching_in(fseq.subrange(0, j + 1), pattern@, tier as int)
                            =~= fns_matching_in(fseq.subrange(0, j as int), pattern@, tier as int));
                    }
                }
                proof {
                    assert(fns_view(out@) =~= fns_matching(
                        self@.subrange(0, i as int),
                        pattern@,
                        tier as int,
                    ) + fns_matching_in(fseq.subrange(0, j + 1), pattern@, tier as int));
                }
                j = j + 1;
            }
            proof {
                let fseq = self@[i as int].functions;
                assert(fseq.subrange(0, fseq.len() as int) =~= fseq);
                assert(self@.subrange(0, i + 1).drop_last() =~= self@.subrange(0, i as int));
                assert(self@.subrange(0, i + 1).last() == self@[i as int]);
                assert(fns_view(out@) =~= fns_matching(
                    self@.subrange(0, i + 1),
                    pattern@,
                    tier as int,
                ));
            }
            i = i + 1;
        }
        proof {
            assert(self@.subrange(0, self@.len() as int) =~= self@);
        }
        out
    }

    /// Every function answering `pattern`: those named exactly `pattern`
    /// first, then the case-insensitive matches, then the regex and
    /// substring matches; within a tier, storage order. `total_matches`
    /// counts the returned items.
    pub fn find_functions(&self, pattern: &str) -> (r: QueryResult<FunctionSignature>)
        ensures
            fns_view(r.items@) == found_functions(self@, pattern@),
            r.total_matches == r.items@.len(),
    {
        let start = crate::clock::now_unix_millis();
        let mut items = self.collect_functions(pattern, 1);
        let mut tier2 = self.collect_functions(pattern, 2);
        let mut tier3 = self.collect_functions(pattern, 3);
        items.append(&mut tier2);
        items.append(&mut tier3);
        proof {
            assert(fns_view(items@) =~= found_functions(self@, pattern@));
        }
        let n = items.len();
        let end = crate::clock::now_unix_millis();
        let duration = if end >= start {
            end - start
        } else {
            0
        };
        QueryResult::new(items, n, duration)
    }

    fn collect_structs(&self, pattern: &str, tier: u8) -> (r: Vec<StructSignature>)
        ensures
            structs_view(r@) == structs_matching(self@, pattern@, tier as int),
    {
        let mut out: Vec<StructSignature> = Vec::new();
        let mut i: usize = 0;
        while i < self.files.len()
            invariant
                i <= self.files.len(),
                structs_view(out@) == structs_matching(
                    self@.subrange(0, i as int),
                    pattern@,
                    tier as int,
                ),
            decreases self.files.len() - i,
        {
            let file = &self.files[i];
            proof {
                assert(file@ == self@[i as int]);
            }
            let mut j: usize = 0;
            while j < file.structs.len()
                invariant
                    i < self.files.len(),
                    file == &self.files[i as int],
                    file@ == self@[i as int],
                    j <= file.structs.len(),
                    structs_view(out@) == structs_matching(
                        self@.subrange(0, i as int),
                        pattern@,
                        tier as int,
                    ) + structs_matching_in(
                        self@[i as int].structs.subrange(0, j as int),
                        pattern@,
                        tier as int,
                    ),
                decreases file.structs.len() - j,
            {
                let st = &file.structs[j];
                let hit = match_tier(st.name.as_str(), pattern) == tier;
                let ghost pre = structs_view(out@);
                let ghost sseq = self@[i as int].structs;
                proof {
                    assert(st@ == sseq[j as int]);
                    assert(sseq.subrange(0, j + 1).drop_last() =~= sseq.subrange(0, j as int));
                    assert(sseq.subrange(0, j + 1).last() == sseq[j as int]);
                }
                if hit {
                    out.push(st.clone());
                    proof {
                        assert(structs_view(out@) =~= pre + seq![sseq[j as int]]);
                    }
                } else {
                    proof {
                        assert(structs_matching_in(sseq.subrange(0, j + 1), pattern@, tier as int)
                            =~= structs_matching_in(
                            sseq.subrange(0, j as int),
                            pattern@,
                            tier as int,
                        ));
                    }
                }
                proof {
                    assert(structs_view(out@) =~= structs_matching(
                        self@.subrange(0, i as int),
                        pattern@,
                        tier as int,
                    ) + structs_matching_in(sseq.subrange(0, j + 1), pattern@, tier as int));
                }
                j = j + 1;
            }
            proof {
                let sseq = self@[i as int].structs;
                assert(sseq.subrange(0, sseq.len() as int) =~= sseq);
                assert(self@.subrange(0, i + 1).drop_last() =~= self@.subrange(0, i as int));
                assert(self@.subrange(0, i + 1).last() == self@[i as int]);
                assert(structs_view(out@) =~= structs_matching(
                    self@.subrange(0, i + 1),
                    pattern@,
                    tier as int,
                ));
            }
            i = i + 1;
        }
        proof {
            assert(self@.subrange(0, self@.len() as int) =~= self@);
        }
        out
    }

    /// Every struct answering `pattern`, tiered as `find_functions` is.
    pub fn find_structs(&self, pattern: &str) -> (r: QueryResult<StructSignature>)
        ensures
            structs_view(r.items@) == found_structs(self@, pattern@),
            r.total_matches == r.items@.len(),
    {
        let start = crate::clock::now_unix_millis();
        let mut items = self.collect_structs(pattern, 1);
        let mut tier2 = self.collect_structs(pattern, 2);
        let mut tier3 = self.collect_structs(pattern, 3);
        items.append(&mut tier2);
        items.append(&mut tier3);
        proof {
            assert(structs_view(items@) =~= found_structs(self@, pattern@));
        }
        let n = items.len();
        let end = crate::clock::now_unix_millis();
        let duration = if end >= start {
            end - start
        } else {
            0
        };
        QueryResult::new(items, n, duration)
    }

    /// The first `limit` imports whose path answers `pattern`.
    pub fn find_imports(&self, pattern: &str, limit: usize) -> (r: Vec<ImportStatement>)
        ensures
            imports_view(r@) == take_up_to(imports_matching(self@, pattern@), limit as int),
    {
        let mut out: Vec<ImportStatement> = Vec::new();
        let mut i: usize = 0;
        while i < self.files.len()
            invariant
                i <= self.files.len(),
                imports_view(out@) == take_up_to(
                    imports_matching(self@.subrange(0, i as int), pattern@),
                    limit as int,
                ),
            decreases self.files.len() - i,
        {
            let file = &self.files[i];
            proof {
                assert(file@ == self@[i as int]);
            }
            let mut j: usize = 0;
            while j < file.imports.len()
                invariant
                    i < self.files.len(),
                    file == &self.files[i as int],
                    file@ == self@[i as int],
                    j <= file.imports.len(),
                    imports_view(out@) == take_up_to(
                        imports_matching(self@.subrange(0, i as int), pattern@)
                            + imports_matching_in(
                            self@[i as int].imports.subrange(0, j as int),
                            pattern@,
                        ),
                        limit as int,
                    ),
                decreases file.imports.len() - j,
            {
                let imp = &file.imports[j];
                let hit = matches_pattern(imp.import_path.as_str(), pattern);
                let ghost pre = imports_view(out@);
                let ghost iseq = self@[i as int].imports;
                proof {
                    assert(imp@ == iseq[j as int]);
                    assert(iseq.subrange(0, j + 1).drop_last() =~= iseq.subrange(0, j as int));
                    assert(iseq.subrange(0, j + 1).last() == iseq[j as int]);
                }
                if hit && out.len() < limit {
                    out.push(imp.clone());
                    proof {
                        assert(imports_view(out@) =~= pre + seq![iseq[j as int]]);
                    }
                }
                proof {
                    assert(imports_view(out@) =~= take_up_to(
                        imports_matching(self@.subrange(0, i as int), pattern@)
                            + imports_matching_in(iseq.subrange(0, j + 1), pattern@),
                        limit as int,
                    ));
                }
                j = j + 1;
            }
            proof {
                let iseq = self@[i as int].imports;
                assert(iseq.subrange(0, iseq.len() as int) =~= iseq);
                assert(self@.subrange(0, i + 1).drop_last() =~= self@.subrange(0, i as int));
                assert(self@.subrange(0, i + 1).last() == self@[i as int]);
                assert(imports_view(out@) == take_up_to(
                    imports_matching(self@.subrange(0, i + 1), pattern@),
                    limit as int,
                ));
            }
            i = i + 1;
        }
        proof {
            assert(self@.subrange(0, self@.len() as int) =~= self@);
        }
        out
    }

    /// The first `limit` exports whose item answers `pattern`.
    pub fn find_exports(&self, pattern: &str, limit: usize) -> (r: Vec<ExportStatement>)
        ensures
            exports_view(r@) == take_up_to(exports_matching(self@, pattern@), limit as int),
    {
        let mut out: Vec<ExportStatement> = Vec::new();
        let mut i: usize = 0;
        while i < self.files.len()
            invariant
                i <= self.files.len(),
                exports_view(out@) == take_up_to(
                    exports_matching(self@.subrange(0, i as int), pattern@),
                    limit as int,
                ),
            decreases self.files.len() - i,
        {
            let file = &self.files[i];
            proof {
                assert(file@ == self@[i as int]);
            }
            let mut j: usize = 0;
            while j < file.exports.len()
                invariant
                    i < self.files.len(),
                    file == &self.files[i as int],
                    file@ == self@[i as int],
                    j <= file.exports.len(),
                    exports_view(out@) == take_up_to(
                        exports_matching(self@.subrange(0, i as int), pattern@)
                            + exports_matching_in(
                            self@[i as int].exports.subrange(0, j as int),
                            pattern@,
                        ),
                        limit as int,
                    ),
                decreases file.exports.len() - j,
            {
                let exp = &file.exports[j];
                let hit = matches_pattern(exp.exported_item.as_str(), pattern);
                let ghost pre = exports_view(out@);
                let ghost eseq = self@[i as int].exports;
                proof {
                    assert(exp@ == eseq[j as int]);
                    assert(eseq.subrange(0, j + 1).drop_last() =~= eseq.subrange(0, j as int));
                    assert(eseq.subrange(0, j + 1).last() == eseq[j as int]);
                }
                if hit && out.len() < limit {
                    out.push(exp.clone());
                    proof {
                        assert(exports_view(out@) =~= pre + seq![eseq[j as int]]);
                    }
                }
                proof {
                    assert(exports_view(out@) =~= take_up_to(
                        exports_matching(self@.subrange(0, i as int), pattern@)
                            + exports_matching_in(eseq.subrange(0, j + 1), pattern@),
                        limit as int,
                    ));
                }
                j = j + 1;
            }
            proof {
                let eseq = self@[i as int].exports;
                assert(eseq.subrange(0, eseq.len() as int) =~= eseq);
                assert(self@.subrange(0, i + 1).drop_last() =~= self@.subrange(0, i as int));
                assert(self@.subrange(0, i + 1).last() == self@[i as int]);
                assert(exports_view(out@) == take_up_to(
                    exports_matching(self@.subrange(0, i + 1), pattern@),
                    limit as int,
                ));
            }
            i = i + 1;
        }
        proof {
            assert(self@.subrange(0, self@.len() as int) =~= self@);
        }
        out
    }

    /// The import paths of the record at `file_path`, empty when absent.
    pub fn get_file_dependencies(&self, file_path: &str) -> (r: Vec<String>)
        ensures
            has_path(self@, file_path@) ==> strings_view(r@) == import_paths_of(
                self@[path_index(self@, file_path@)].imports,
            ),
            !has_path(self@, file_path@) ==> r@.len() == 0,
    {
        match self.get_file(file_path) {
            Some(file) => {
                let ghost iseq = self@[path_index(self@, file_path@)].imports;
                let mut out: Vec<String> = Vec::new();
                let mut j: usize = 0;
                while j < file.imports.len()
                    invariant
                        file@.imports == iseq,
                        j <= file.imports.len(),
                        strings_view(out@) =~= import_paths_of(iseq.subrange(0, j as int)),
                    decreases file.imports.len() - j,
                {
                    out.push(file.imports[j].import_path.clone());
                    proof {
                        assert(file.imports@[j as int]@ == iseq[j as int]);
                        assert(import_paths_of(iseq.subrange(0, j + 1)) =~= import_paths_of(
                            iseq.subrange(0, j as int),
                        ).push(iseq[j as int].import_path));
                        assert(strings_view(out@) =~= import_paths_of(
                            iseq.subrange(0, j + 1),
                        ));
                    }
                    j = j + 1;
                }
                proof {
                    assert(iseq.subrange(0, iseq.len() as int) =~= iseq);
                }
                out
            },
            None => Vec::new(),
        }
    }

    /// Every recorded call of `function_name`, in storage order.
    pub fn find_function_callers(&self, function_name: &str) -> (r: Vec<CallSite>)
        ensures
            callsites_view(r@) == callsites_for(self@, function_name@),
    {
        let mut out: Vec<CallSite> = Vec::new();
        let mut i: usize = 0;
        while i < self.files.len()
            invariant
                i <= self.files.len(),
                callsites_view(out@) == callsites_for(
                    self@.subrange(0, i as int),
                    function_name@,
                ),
            decreases self.files.len() - i,
        {
            let file = &self.files[i];
            proof {
                assert(file@ == self@[i as int]);
            }
            let mut j: usize = 0;
            while j < file.function_calls.len()
                invariant
                    i < self.files.len(),
                    file == &self.files[i as int],
                    file@ == self@[i as int],
                    j <= file.function_calls.len(),
                    callsites_view(out@) == callsites_for(
                        self@.subrange(0, i as int),
                        function_name@,
                    ) + callsites_in(
                        self@[i as int],
                        self@[i as int].function_calls.subrange(0, j as int),
                        function_name@,
                    ),
                decreases file.function_calls.len() - j,
            {
                let call = &file.function_calls[j];
                let hit = str_eq(call.function_name.as_str(), function_name);
                let ghost pre = callsites_view(out@);
                let ghost cseq = self@[i as int].function_calls;
                proof {
                    assert(call@ == cseq[j as int]);
                    assert(cseq.subrange(0, j + 1).drop_last() =~= cseq.subrange(0, j as int));
                    assert(cseq.subrange(0, j + 1).last() == cseq[j as int]);
                }
                if hit {
                    let caller_function = match &call.caller_function {
                        Some(c) => Some(c.clone()),
                        None => None,
                    };
                    let site = CallSite {
                        file_path: file.file_path.clone(),
                        line_number: call.line_number,
                        column: call.column,
                        function_name: call.function_name.clone(),
                        caller_function,
                    };
                    out.push(site);
                    proof {
                        assert(callsites_view(out@) =~= pre + seq![
                            CallSiteView {
                                file_path: self@[i as int].file_path,
                                line_number: cseq[j as int].line_number,
                                column: cseq[j as int].column,
                                function_name: cseq[j as int].function_name,
                                caller_function: cseq[j as int].caller_function,
                            },
                        ]);
                    }
                }
                proof {
                    assert(callsites_view(out@) =~= callsites_for(
                        self@.subrange(0, i as int),
                        function_name@,
                    ) + callsites_in(
                        self@[i as int],
                        cseq.subrange(0, j + 1),
                        function_name@,
                    ));
                }
                j = j + 1;
            }
            proof {
                let cseq = self@[i as int].function_calls;
                assert(cseq.subrange(0, cseq.len() as int) =~= cseq);
                assert(self@.subrange(0, i + 1).drop_last() =~= self@.subrange(0, i as int));
                assert(self@.subrange(0, i + 1).last() == self@[i as int]);
                assert(callsites_view(out@) =~= callsites_for(
                    self@.subrange(0, i + 1),
                    function_name@,
                ));
            }
            i = i + 1;
        }
        proof {
            assert(self@.subrange(0, self@.len() as int) =~= self@);
        }
        out
    }

    /// Copies of the records of one language, in storage order.
    pub fn get_files_by_language(&self, language: &str) -> (r: Vec<TreeNode>)
        ensures
            nodes_view(r@) == files_with_language(self@, language@),
    {
        let mut out: Vec<TreeNode> = Vec::new();
        let mut i: usize = 0;
        while i < self.files.len()
            invariant
                i <= self.files.len(),
                nodes_view(out@) == files_with_language(self@.subrange(0, i as int), language@),
            decreases self.files.len() - i,
        {
            let ghost pre = nodes_view(out@);
            proof {
                assert(self@.subrange(0, i + 1).drop_last() =~= self@.subrange(0, i as int));
                assert(self@.subrange(0, i + 1).last() == self@[i as int]);
            }
            if str_eq(self.files[i].language.as_str(), language) {
                out.push(self.files[i].clone());
                proof {
                    assert(nodes_view(out@) =~= pre + seq![self@[i as int]]);
                }
            }
            proof {
                assert(nodes_view(out@) =~= files_with_language(
                    self@.subrange(0, i + 1),
                    language@,
                ));
            }
            i = i + 1;
        }
        proof {
            assert(self@.subrange(0, self@.len() as int) =~= self@);
        }
        out
    }

    /// Copies of the records modified strictly after `since`.
    pub fn get_changed_files(&self, since: u64) -> (r: Vec<TreeNode>)
        ensures
            nodes_view(r@) == files_changed_since(self@, since),
    {
        let mut out: Vec<TreeNode> = Vec::new();
        let mut i: usize = 0;
        while i < self.files.len()
            invariant
                i <= self.files.len(),
                nodes_view(out@) == files_changed_since(self@.subrange(0, i as int), since),
            decreases self.files.len() - i,
        {
            let ghost pre = nodes_view(out@);
            proof {
                assert(self@.subrange(0, i + 1).drop_last() =~= self@.subrange(0, i as int));
                assert(self@.subrange(0, i + 1).last() == self@[i as int]);
            }
            if self.files[i].last_modified > since {
                out.push(self.files[i].clone());
                proof {
                    assert(nodes_view(out@) =~= pre + seq![self@[i as int]]);
                }
            }
            proof {
                assert(nodes_view(out@) =~= files_changed_since(
                    self@.subrange(0, i + 1),
                    since,
                ));
            }
            i = i + 1;
        }
        proof {
            assert(self@.subrange(0, self@.len() as int) =~= self@);
        }
        out
    }
}

} // verus!

verus! {

/// What `SkimMatcherV2::fuzzy_match` scores `text` against `query`:
/// `None` when they do not fuzzy-match at all.
pub uninterp spec fn fuzzy_score_of(text: Seq<char>, query: Seq<char>) -> Option<i64>;

/// Relies on fuzzy_matcher::skim::SkimMatcherV2::fuzzy_match with the
/// default matcher configuration: the score is a function of the two
/// strings alone.
#[verifier::external_body]
fn fuzzy_score(text: &str, query: &str) -> (r: Option<i64>)
    ensures
        r == fuzzy_score_of(text@, query@),
{
    let matcher = fuzzy_matcher::skim::SkimMatcherV2::default();
    fuzzy_matcher::FuzzyMatcher::fuzzy_match(&matcher, text, query)
}

/// The label shown for a matched function name.
pub open spec fn fn_label(name: Seq<char>) -> Seq<char> {
    "fn "@ + name
}

/// The label shown for a matched struct name.
pub open spec fn struct_label(name: Seq<char>) -> Seq<char> {
    "struct "@ + name
}

/// The labelled scores of the functions that fuzzy-match `query`.
pub open spec fn fn_candidates(fns: Seq<FunctionSignatureView>, query: Seq<char>) -> Seq<
    (Seq<char>, i64),
>
    decreases fns.len(),
{
    if fns.len() == 0 {
        Seq::empty()
    } else {
        fn_candidates(fns.drop_last(), query) + match fuzzy_score_of(fns.last().name, query) {
            Some(s) => seq![(fn_label(fns.last().name), s)],
            None => Seq::empty(),
        }
    }
}

/// The labelled scores of the structs that fuzzy-match `query`.
pub open spec fn struct_candidates(ss: Seq<StructSignatureView>, query: Seq<char>) -> Seq<
    (Seq<char>, i64),
>
    decreases ss.len(),
{
    if ss.len() == 0 {
        Seq::empty()
    } else {
        struct_candidates(ss.drop_last(), query) + match fuzzy_score_of(ss.last().name, query) {
            Some(s) => seq![(struct_label(ss.last().name), s)],
            None => Seq::empty(),
        }
    }
}

/// Every labelled score over all records, in storage order.
pub open spec fn fuzzy_candidates(files: Seq<TreeNodeView>, query: Seq<char>) -> Seq<
    (Seq<char>, i64),
>
    decreases files.len(),
{
    if files.len() == 0 {
        Seq::empty()
    } else {
        fuzzy_candidates(files.drop_last(), query) + fn_candidates(files.last().functions, query)
            + struct_candidates(files.last().structs, query)
    }
}

/// The views of a sequence of labelled scores.
pub open spec fn pairs_view(s: Seq<(String, i64)>) -> Seq<(Seq<char>, i64)> {
    s.map_values(|p: (String, i64)| (p.0@, p.1))
}

/// Scores never increase along the sequence.
pub open spec fn scores_sorted_desc(s: Seq<(Seq<char>, i64)>) -> bool {
    forall|i: int, j: int| 0 <= i < j < s.len() ==> (#[trigger] s[i]).1 >= (#[trigger] s[j]).1
}

/// The first index bearing the greatest score.
pub open spec fn first_max_index(s: Seq<(Seq<char>, i64)>) -> int
    decreases s.len(),
{
    if s.len() <= 1 {
        0
    } else {
        let r = first_max_index(s.drop_last());
        if s.last().1 > s[r].1 {
            s.len() - 1
        } else {
            r
        }
    }
}

pub proof fn lemma_first_max_index(s: Seq<(Seq<char>, i64)>)
    requires
        s.len() > 0,
    ensures
        0 <= first_max_index(s) < s.len(),
        forall|k: int| 0 <= k < s.len() ==> (#[trigger] s[k]).1 <= s[first_max_index(s)].1,
    decreases s.len(),
{
    if s.len() > 1 {
        lemma_first_max_index(s.drop_last());
        assert(forall|k: int| 0 <= k < s.len() - 1 ==> s.drop_last()[k] == s[k]);
    }
}

/// The stable score-descending order: the first greatest element, then the
/// rest in the same order. One fixed answer for one input.
pub open spec fn stable_sort_desc(s: Seq<(Seq<char>, i64)>) -> Seq<(Seq<char>, i64)>
    decreases s.len(),
    via stable_sort_desc_decreases
{
    if s.len() == 0 {
        s
    } else {
        seq![s[first_max_index(s)]] + stable_sort_desc(s.remove(first_max_index(s)))
    }
}

#[via_fn]
proof fn stable_sort_desc_decreases(s: Seq<(Seq<char>, i64)>) {
    if s.len() > 0 {
        lemma_first_max_index(s);
    }
}

/// The stable order is score-descending and holds the same pairs that went
/// in; stability across identical calls follows from the order being a
/// fixed function of the candidates.
pub proof fn lemma_stable_sort_desc(s: Seq<(Seq<char>, i64)>)
    ensures
        scores_sorted_desc(stable_sort_desc(s)),
        stable_sort_desc(s).to_multiset() == s.to_multiset(),
    decreases s.len(),
{
    broadcast use vstd::seq_lib::group_to_multiset_ensures;
    broadcast use vstd::multiset::group_multiset_axioms;

    if s.len() == 0 {
        assert(stable_sort_desc(s).to_multiset() =~= s.to_multiset());
    } else {
        lemma_first_max_index(s);
        let i = first_max_index(s);
        let rest = s.remove(i);
        lemma_stable_sort_desc(rest);
        let sorted = stable_sort_desc(s);
        s.to_multiset_ensures();
        rest.to_multiset_ensures();
        stable_sort_desc(rest).to_multiset_ensures();
        assert(rest.to_multiset() =~= s.to_multiset().remove(s[i]));
        vstd::seq_lib::lemma_multiset_commutative(seq![s[i]], stable_sort_desc(rest));
        assert(seq![s[i]].to_multiset() =~= Multiset::<(Seq<char>, i64)>::empty().insert(s[i]))
            by {
            assert(seq![s[i]] =~= Seq::<(Seq<char>, i64)>::empty().push(s[i]));
            Seq::<(Seq<char>, i64)>::empty().to_multiset_ensures();
        }
        assert(sorted.to_multiset() =~= s.to_multiset());
        assert forall|a: int, b: int|
            0 <= a < b < sorted.len() implies (#[trigger] sorted[a]).1 >= (
        #[trigger] sorted[b]).1 by {
            if a == 0 {
                assert(sorted[b] == stable_sort_desc(rest)[b - 1]);
                assert(stable_sort_desc(rest).to_multiset().contains(
                    stable_sort_desc(rest)[b - 1],
                ));
                assert(rest.to_multiset().contains(sorted[b]));
                assert(rest.contains(sorted[b]));
                let k = choose|k: int| 0 <= k < rest.len() && rest[k] == sorted[b];
                let k0 = if k < i {
                    k
                } else {
                    k + 1
                };
                assert(rest[k] == s[k0]);
                assert(s[k0].1 <= s[i].1);
            } else {
                assert(sorted[a] == stable_sort_desc(rest)[a - 1]);
                assert(sorted[b] == stable_sort_desc(rest)[b - 1]);
            }
        }
    }
}

/// `labels` is what a fuzzy query answers: the candidates in the stable
/// score-descending order, cut to `limit` when one is given.
pub open spec fn is_fuzzy_result(
    files: Seq<TreeNodeView>,
    query: Seq<char>,
    limit: Option<int>,
    labels: Seq<(Seq<char>, i64)>,
) -> bool {
    labels == match limit {
        Some(l) => take_up_to(stable_sort_desc(fuzzy_candidates(files, query)), l),
        None => stable_sort_desc(fuzzy_candidates(files, query)),
    }
}

/// Reorders labelled scores into the stable score-descending order.
fn sort_pairs_desc(input: Vec<(String, i64)>) -> (r: Vec<(String, i64)>)
    ensures
        pairs_view(r@) == stable_sort_desc(pairs_view(input@)),
{
    let ghost orig = pairs_view(input@);
    let mut v = input;
    let mut out: Vec<(String, i64)> = Vec::new();
    proof {
        assert(pairs_view(out@) + stable_sort_desc(pairs_view(v@)) =~= stable_sort_desc(orig));
    }
    while v.len() > 0
        invariant
            pairs_view(out@) + stable_sort_desc(pairs_view(v@)) == stable_sort_desc(orig),
        decreases v.len(),
    {
        let mut idx: usize = 0;
        let mut a: usize = 1;
        while a < v.len()
            invariant
                v@.len() > 0,
                idx < a,
                a <= v@.len(),
                idx as int == first_max_index(pairs_view(v@).subrange(0, a as int)),
            decreases v.len() - a,
        {
            proof {
                let pv = pairs_view(v@);
                assert(pv.subrange(0, a + 1).drop_last() =~= pv.subrange(0, a as int));
                assert(pv.subrange(0, a + 1).last() == pv[a as int]);
                assert(pv[a as int].1 == v@[a as int].1);
                assert(pv[idx as int].1 == v@[idx as int].1);
                assert(pv.subrange(0, a as int)[idx as int] == pv[idx as int]);
            }
            if v[a].1 > v[idx].1 {
                idx = a;
            }
            a = a + 1;
        }
        let ghost pre_v = pairs_view(v@);
        let ghost pre_out = pairs_view(out@);
        proof {
            assert(pre_v.subrange(0, pre_v.len() as int) =~= pre_v);
            assert(idx as int == first_max_index(pre_v));
        }
        let x = v.remove(idx);
        out.push(x);
        proof {
            assert(pairs_view(v@) =~= pre_v.remove(idx as int));
            assert(pairs_view(out@) =~= pre_out.push(pre_v[idx as int]));
            assert(stable_sort_desc(pre_v) =~= seq![pre_v[idx as int]] + stable_sort_desc(
                pre_v.remove(idx as int),
            ));
            assert(pairs_view(out@) + stable_sort_desc(pairs_view(v@)) =~= stable_sort_desc(
                orig,
            ));
        }
    }
    proof {
        assert(stable_sort_desc(pairs_view(v@)) =~= Seq::<(Seq<char>, i64)>::empty());
        assert(pairs_view(out@) =~= stable_sort_desc(orig));
    }
    out
}

impl RepoMap {
    fn collect_fuzzy_candidates(&self, query: &str) -> (r: Vec<(String, i64)>)
        ensures
            pairs_view(r@) == fuzzy_candidates(self@, query@),
    {
        let mut out: Vec<(String, i64)> = Vec::new();
        let mut i: usize = 0;
        while i < self.files.len()
            invariant
                i <= self.files.len(),
                pairs_view(out@) == fuzzy_candidates(self@.subrange(0, i as int), query@),
            decreases self.files.len() - i,
        {
            let file = &self.files[i];
            proof {
                assert(file@ == self@[i as int]);
            }
            let mut j: usize = 0;
            while j < file.functions.len()
                invariant
                    i < self.files.len(),
                    file == &self.files[i as int],
                    file@ == self@[i as int],
                    j <= file.functions.len(),
                    pairs_view(out@) == fuzzy_candidates(self@.subrange(0, i as int), query@)
                        + fn_candidates(
                        self@[i as int].functions.subrange(0, j as int),
                        query@,
                    ),
                decreases file.functions.len() - j,
            {
                let func = &file.functions[j];
                let ghost pre = pairs_view(out@);
                let ghost fseq = self@[i as int].functions;
                proof {
                    assert(func@ == fseq[j as int]);
                    assert(fseq.subrange(0, j + 1).drop_last() =~= fseq.subrange(0, j as int));
                    assert(fseq.subrange(0, j + 1).last() == fseq[j as int]);
                }
                match fuzzy_score(func.name.as_str(), query) {
                    Some(score) => {
                        let mut label = "fn ".to_owned();
                        label.append(func.name.as_str());
                        out.push((label, score));
                        proof {
                            assert(pairs_view(out@) =~= pre + seq![
                                (fn_label(fseq[j as int].name), score),
                            ]);
                        }
                    },
                    None => {},
                }
                proof {
                    assert(pairs_view(out@) =~= fuzzy_candidates(
                        self@.subrange(0, i as int),
                        query@,
                    ) + fn_candidates(fseq.subrange(0, j + 1), query@));
                }
                j = j + 1;
            }
            proof {
                let fseq = self@[i as int].functions;
                assert(fseq.subrange(0, fseq.len() as int) =~= fseq);
            }
            let mut k: usize = 0;
            while k < file.structs.len()
                invariant
                    i < self.files.len(),
                    file == &self.files[i as int],
                    file@ == self@[i as int],
                    k <= file.structs.len(),
                    pairs_view(out@) == fuzzy_candidates(self@.subrange(0, i as int), query@)
                        + fn_candidates(self@[i as int].functions, query@) + struct_candidates(
                        self@[i as int].structs.subrange(0, k as int),
                        query@,
                    ),
                decreases file.structs.len() - k,
            {
                let st = &file.structs[k];
                let ghost pre = pairs_view(out@);
                let ghost sseq = self@[i as int].structs;
                proof {
                    assert(st@ == sseq[k as int]);
                    assert(sseq.subrange(0, k + 1).drop_last() =~= sseq.subrange(0, k as int));
                    assert(sseq.subrange(0, k + 1).last() == sseq[k as int]);
                }
                match fuzzy_score(st.name.as_str(), query) {
                    Some(score) => {
                        let mut label = "struct ".to_owned();
                        label.append(st.name.as_str());
                        out.push((label, score));
                        proof {
                            assert(pairs_view(out@) =~= pre + seq![
                                (struct_label(sseq[k as int].name), score),
                            ]);
                        }
                    },
                    None => {},
                }
                proof {
                    assert(pairs_view(out@) =~= fuzzy_candidates(
                        self@.subrange(0, i as int),
                        query@,
                    ) + fn_candidates(self@[i as int].functions, query@) + struct_candidates(
                        sseq.subrange(0, k + 1),
                        query@,
                    ));
                }
                k = k + 1;
            }
            proof {
                let sseq = self@[i as int].structs;
                assert(sseq.subrange(0, sseq.len() as int) =~= sseq);
                assert(self@.subrange(0, i + 1).drop_last() =~= self@.subrange(0, i as int));
                assert(self@.subrange(0, i + 1).last() == self@[i as int]);
                assert(pairs_view(out@) =~= fuzzy_candidates(self@.subrange(0, i + 1), query@));
            }
            i = i + 1;
        }
        proof {
            assert(self@.subrange(0, self@.len() as int) =~= self@);
        }
        out
    }

    /// Labels and scores of every function and struct name that
    /// fuzzy-matches `query`, ordered by descending score and cut to
    /// `limit` when one is given.
    pub fn fuzzy_search(&self, query: &str, limit: Option<usize>) -> (r: Vec<(String, i64)>)
        ensures
            is_fuzzy_result(
                self@,
                query@,
                match limit {
                    Some(l) => Some(l as int),
                    None => None,
                },
                pairs_view(r@),
            ),
    {
        let cands = self.collect_fuzzy_candidates(query);
        let mut sorted = sort_pairs_desc(cands);
        let ghost full = pairs_view(sorted@);
        match limit {
            Some(l) => {
                sorted.truncate(l);
                proof {
                    assert(pairs_view(sorted@) =~= take_up_to(full, l as int));
                }
            },
            None => {},
        }
        sorted
    }
}

} // verus!

verus! {

/// One copy of `f` for each label that holds its name as a substring, in
/// label order.
pub open spec fn picks_for_fn(
    f: FunctionSignatureView,
    labels: Seq<(Seq<char>, i64)>,
) -> Seq<FunctionSignatureView>
    decreases labels.len(),
{
    if labels.len() == 0 {
        Seq::empty()
    } else {
        picks_for_fn(f, labels.drop_last()) + if crate::text::contains_sub(
            labels.last().0,
            f.name,
        ) {
            seq![f]
        } else {
            Seq::empty()
        }
    }
}

/// The functions of one record picked against the labels, in record order.
pub open spec fn fuzzy_picks_in(
    fns: Seq<FunctionSignatureView>,
    labels: Seq<(Seq<char>, i64)>,
) -> Seq<FunctionSignatureView>
    decreases fns.len(),
{
    if fns.len() == 0 {
        Seq::empty()
    } else {
        fuzzy_picks_in(fns.drop_last(), labels) + picks_for_fn(fns.last(), labels)
    }
}

/// Every function picked against the labels, in storage order.
pub open spec fn fuzzy_picks(
    files: Seq<TreeNodeView>,
    labels: Seq<(Seq<char>, i64)>,
) -> Seq<FunctionSignatureView>
    decreases files.len(),
{
    if files.len() == 0 {
        Seq::empty()
    } else {
        fuzzy_picks(files.drop_last(), labels) + fuzzy_picks_in(files.last().functions, labels)
    }
}

/// One copy of `st` for each label that holds its name as a substring.
pub open spec fn picks_for_struct(
    st: StructSignatureView,
    labels: Seq<(Seq<char>, i64)>,
) -> Seq<StructSignatureView>
    decreases labels.len(),
{
    if labels.len() == 0 {
        Seq::empty()
    } else {
        picks_for_struct(st, labels.drop_last()) + if crate::text::contains_sub(
            labels.last().0,
            st.name,
        ) {
            seq![st]
        } else {
            Seq::empty()
        }
    }
}

/// The structs of one record picked against the labels, in record order.
pub open spec fn struct_fuzzy_picks_in(
    ss: Seq<StructSignatureView>,
    labels: Seq<(Seq<char>, i64)>,
) -> Seq<StructSignatureView>
    decreases ss.len(),
{
    if ss.len() == 0 {
        Seq::empty()
    } else {
        struct_fuzzy_picks_in(ss.drop_last(), labels) + picks_for_struct(ss.last(), labels)
    }
}

/// Every struct picked against the labels, in storage order.
pub open spec fn struct_fuzzy_picks(
    files: Seq<TreeNodeView>,
    labels: Seq<(Seq<char>, i64)>,
) -> Seq<StructSignatureView>
    decreases files.len(),
{
    if files.len() == 0 {
        Seq::empty()
    } else {
        struct_fuzzy_picks(files.drop_last(), labels) + struct_fuzzy_picks_in(
            files.last().structs,
            labels,
        )
    }
}

impl RepoMap {
    /// The first `limit` functions answering `pattern`. Without fuzzy
    /// matching that cuts the `find_functions` answer; with it, functions
    /// are picked, in storage order, once per fuzzy-matched label that
    /// holds their name.
    pub fn find_functions_with_options(&self, pattern: &str, limit: usize, fuzzy: bool) -> (r:
        Vec<FunctionSignature>)
        ensures
            !fuzzy ==> fns_view(r@) == take_up_to(
                found_functions(self@, pattern@),
                limit as int,
            ),
            fuzzy ==> exists|labels: Seq<(Seq<char>, i64)>|
                {
                    &&& #[trigger] is_fuzzy_result(self@, pattern@, Some(limit as int), labels)
                    &&& fns_view(r@) == take_up_to(fuzzy_picks(self@, labels), limit as int)
                },
    {
        if fuzzy {
            let fuzzy_results = self.fuzzy_search(pattern, Some(limit));
            let ghost labels = pairs_view(fuzzy_results@);
            let mut out: Vec<FunctionSignature> = Vec::new();
            let mut i: usize = 0;
            while i < self.files.len()
                invariant
                    i <= self.files.len(),
                    labels == pairs_view(fuzzy_results@),
                    fns_view(out@) == take_up_to(
                        fuzzy_picks(self@.subrange(0, i as int), labels),
                        limit as int,
                    ),
                decreases self.files.len() - i,
            {
                let file = &self.files[i];
                proof {
                    assert(file@ == self@[i as int]);
                }
                let mut j: usize = 0;
                while j < file.functions.len()
                    invariant
                        i < self.files.len(),
                        file == &self.files[i as int],
                        file@ == self@[i as int],
                        j <= file.functions.len(),
                        labels == pairs_view(fuzzy_results@),
                        fns_view(out@) == take_up_to(
                            fuzzy_picks(self@.subrange(0, i as int), labels) + fuzzy_picks_in(
                                self@[i as int].functions.subrange(0, j as int),
                                labels,
                            ),
                            limit as int,
                        ),
                    decreases file.functions.len() - j,
                {
                    let func = &file.functions[j];
                    let ghost fseq = self@[i as int].functions;
                    proof {
                        assert(func@ == fseq[j as int]);
                        assert(fseq.subrange(0, j + 1).drop_last() =~= fseq.subrange(
                            0,
                            j as int,
                        ));
                        assert(fseq.subrange(0, j + 1).last() == fseq[j as int]);
                    }
                    let mut m: usize = 0;
                    while m < fuzzy_results.len()
                        invariant
                            i < self.files.len(),
                            file == &self.files[i as int],
                            file@ == self@[i as int],
                            j < file.functions.len(),
                            func == &file.functions[j as int],
                            func@ == fseq[j as int],
                            fseq == self@[i as int].functions,
                            m <= fuzzy_results.len(),
                            labels == pairs_view(fuzzy_results@),
                            fns_view(out@) == take_up_to(
                                fuzzy_picks(self@.subrange(0, i as int), labels)
                                    + fuzzy_picks_in(
                                    fseq.subrange(0, j as int),
                                    labels,
                                ) + picks_for_fn(fseq[j as int], labels.subrange(0, m as int)),
                                limit as int,
                            ),
                        decreases fuzzy_results.len() - m,
                    {
                        let ghost pre = fns_view(out@);
                        proof {
                            assert(labels.subrange(0, m + 1).drop_last() =~= labels.subrange(
                                0,
                                m as int,
                            ));
                            assert(labels.subrange(0, m + 1).last() == labels[m as int]);
                            assert(fuzzy_results@[m as int].0@ == labels[m as int].0);
                        }
                        if str_contains(fuzzy_results[m].0.as_str(), func.name.as_str())
                            && out.len() < limit {
                            out.push(func.clone());
                            proof {
                                assert(fns_view(out@) =~= pre + seq![fseq[j as int]]);
                            }
                        }
                        proof {
                            assert(fns_view(out@) =~= take_up_to(
                                fuzzy_picks(self@.subrange(0, i as int), labels)
                                    + fuzzy_picks_in(fseq.subrange(0, j as int), labels)
                                    + picks_for_fn(
                                    fseq[j as int],
                                    labels.subrange(0, m + 1),
                                ),
                                limit as int,
                            ));
                        }
                        m = m + 1;
                    }
                    proof {
                        assert(labels.subrange(0, labels.len() as int) =~= labels);
                        assert(fns_view(out@) =~= take_up_to(
                            fuzzy_picks(self@.subrange(0, i as int), labels) + fuzzy_picks_in(
                                fseq.subrange(0, j + 1),
                                labels,
                            ),
                            limit as int,
                        ));
                    }
                    j = j + 1;
                }
                proof {
                    let fseq = self@[i as int].functions;
                    assert(fseq.subrange(0, fseq.len() as int) =~= fseq);
                    assert(self@.subrange(0, i + 1).drop_last() =~= self@.subrange(
                        0,
                        i as int,
                    ));
                    assert(self@.subrange(0, i + 1).last() == self@[i as int]);
                    assert(fns_view(out@) =~= take_up_to(
                        fuzzy_picks(self@.subrange(0, i + 1), labels),
                        limit as int,
                    ));
                }
                i = i + 1;
            }
            proof {
                assert(self@.subrange(0, self@.len() as int) =~= self@);
            }
            out
        } else {
            let result = self.find_functions(pattern);
            let mut items = result.items;
            let ghost full = fns_view(items@);
            items.truncate(limit);
            proof {
                assert(fns_view(items@) =~= take_up_to(full, limit as int));
            }
            items
        }
    }

    /// The first `limit` structs answering `pattern`, as
    /// `find_functions_with_options` does for functions.
    pub fn find_structs_with_options(&self, pattern: &str, limit: usize, fuzzy: bool) -> (r: Vec<
        StructSignature,
    >)
        ensures
            !fuzzy ==> structs_view(r@) == take_up_to(
                found_structs(self@, pattern@),
                limit as int,
            ),
            fuzzy ==> exists|labels: Seq<(Seq<char>, i64)>|
                {
                    &&& #[trigger] is_fuzzy_result(self@, pattern@, Some(limit as int), labels)
                    &&& structs_view(r@) == take_up_to(
                        struct_fuzzy_picks(self@, labels),
                        limit as int,
                    )
                },
    {
        if fuzzy {
            let fuzzy_results = self.fuzzy_search(pattern, Some(limit));
            let ghost labels = pairs_view(fuzzy_results@);
            let mut out: Vec<StructSignature> = Vec::new();
            let mut i: usize = 0;
            while i < self.files.len()
                invariant
                    i <= self.files.len(),
                    labels == pairs_view(fuzzy_results@),
                    structs_view(out@) == take_up_to(
                        struct_fuzzy_picks(self@.subrange(0, i as int), labels),
                        limit as int,
                    ),
                decreases self.files.len() - i,
            {
                let file = &self.files[i];
                proof {
                    assert(file@ == self@[i as int]);
                }
                let mut j: usize = 0;
                while j < file.structs.len()
                    invariant
                        i < self.files.len(),
                        file == &self.files[i as int],
                        file@ == self@[i as int],
                        j <= file.structs.len(),
                        labels == pairs_view(fuzzy_results@),
                        structs_view(out@) == take_up_to(
                            struct_fuzzy_picks(self@.subrange(0, i as int), labels)
                                + struct_fuzzy_picks_in(
                                self@[i as int].structs.subrange(0, j as int),
                                labels,
                            ),
                            limit as int,
                        ),
                    decreases file.structs.len() - j,
                {
                    let st = &file.structs[j];
                    let ghost sseq = self@[i as int].structs;
                    proof {
                        assert(st@ == sseq[j as int]);
                        assert(sseq.subrange(0, j + 1).drop_last() =~= sseq.subrange(
                            0,
                            j as int,
                        ));
                        assert(sseq.subrange(0, j + 1).last() == sseq[j as int]);
                    }
                    let mut m: usize = 0;
                    while m < fuzzy_results.len()
                        invariant
                            i < self.files.len(),
                            file == &self.files[i as int],
                            file@ == self@[i as int],
                            j < file.structs.len(),
                            st == &file.structs[j as int],
                            st@ == sseq[j as int],
                            sseq == self@[i as int].structs,
                            m <= fuzzy_results.len(),
                            labels == pairs_view(fuzzy_results@),
                            structs_view(out@) == take_up_to(
                                struct_fuzzy_picks(self@.subrange(0, i as int), labels)
                                    + struct_fuzzy_picks_in(
                                    sseq.subrange(0, j as int),
                                    labels,
                                ) + picks_for_struct(
                                    sseq[j as int],
                                    labels.subrange(0, m as int),
                                ),
                                limit as int,
                            ),
                        decreases fuzzy_results.len() - m,
                    {
                        let ghost pre = structs_view(out@);
                        proof {
                            assert(labels.subrange(0, m + 1).drop_last() =~= labels.subrange(
                                0,
                                m as int,
                            ));
                            assert(labels.subrange(0, m + 1).last() == labels[m as int]);
                            assert(fuzzy_results@[m as int].0@ == labels[m as int].0);
                        }
                        if str_contains(fuzzy_results[m].0.as_str(), st.name.as_str())
                            && out.len() < limit {
                            out.push(st.clone());
                            proof {
                                assert(structs_view(out@) =~= pre + seq![sseq[j as int]]);
                            }
                        }
                        proof {
                            assert(structs_view(out@) =~= take_up_to(
                                struct_fuzzy_picks(self@.subrange(0, i as int), labels)
                                    + struct_fuzzy_picks_in(sseq.subrange(0, j as int), labels)
                                    + picks_for_struct(
                                    sseq[j as int],
                                    labels.subrange(0, m + 1),
                                ),
                                limit as int,
                            ));
                        }
                        m = m + 1;
                    }
                    proof {
                        assert(labels.subrange(0, labels.len() as int) =~= labels);
                        assert(structs_view(out@) =~= take_up_to(
                            struct_fuzzy_picks(self@.subrange(0, i as int), labels)
                                + struct_fuzzy_picks_in(
                                sseq.subrange(0, j + 1),
                                labels,
                            ),
                            limit as int,
                        ));
                    }
                    j = j + 1;
                }
                proof {
                    let sseq = self@[i as int].structs;
                    assert(sseq.subrange(0, sseq.len() as int) =~= sseq);
                    assert(self@.subrange(0, i + 1).drop_last() =~= self@.subrange(
                        0,
                        i as int,
                    ));
                    assert(self@.subrange(0, i + 1).last() == self@[i as int]);
                    assert(structs_view(out@) =~= take_up_to(
                        struct_fuzzy_picks(self@.subrange(0, i + 1), labels),
                        limit as int,
                    ));
                }
                i = i + 1;
            }
            proof {
                assert(self@.subrange(0, self@.len() as int) =~= self@);
            }
            out
        } else {
            let result = self.find_structs(pattern);
            let mut items = result.items;
            let ghost full = structs_view(items@);
            items.truncate(limit);
            proof {
                assert(structs_view(items@) =~= take_up_to(full, limit as int));
            }
            items
        }
    }
}

} // verus!
