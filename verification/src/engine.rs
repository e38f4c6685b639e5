//! The engine facade: a builder-configured entry point that owns the index,
//! ingests analyzed file contents, and routes tool calls. Walking
//! directories and reading files stay with the caller; the engine takes
//! plain paths and contents and decides everything else.

use vstd::prelude::*;
use crate::repo_map::{RepoMap, strings_view};
use crate::scanner::ScannerConfig;
use crate::tools::{ToolSchema, ToolStep, execute_tool_step};
use crate::json::JsonValue;
use crate::text::str_eq;

verus! {

/// An engine-level failure.
#[derive(Debug)]
pub enum LoreGrepError {
    /// A query needed an index no scan has filled yet.
    NotScanned,
    /// The builder was misconfigured.
    ConfigError(String),
    /// A file or directory could not be read.
    IoError(String),
    /// Source text could not be parsed.
    ParseError(String),
    /// The analyzer could not produce a record.
    AnalyzerFailed(String),
    /// A tool call failed.
    ToolError(String),
    /// The index would exceed its configured capacity.
    CapacityExceeded(String),
}

/// The result alias every engine operation uses.
pub type LoreResult<T> = Result<T, LoreGrepError>;

/// What one scan did: how many files were indexed, the aggregate counts
/// afterwards, how long it took, and the languages seen.
pub struct ScanResult {
    pub files_scanned: usize,
    pub functions_found: usize,
    pub structs_found: usize,
    pub duration_ms: u64,
    pub languages: Vec<String>,
}

/// The views of the listed `(path, content)` pairs.
pub open spec fn listing_view(files: Seq<(String, String)>) -> Seq<(Seq<char>, Seq<char>)> {
    files.map_values(|p: (String, String)| (p.0@, p.1@))
}

/// Some listed pair bears this path.
pub open spec fn listed_path(l: Seq<(Seq<char>, Seq<char>)>, path: Seq<char>) -> bool {
    exists|i: int| 0 <= i < l.len() && (#[trigger] l[i]).0 == path
}

/// A listed pair analyzes: its path reads as Rust and every grammar query
/// succeeds on its content.
pub open spec fn pair_analyzes(p: (Seq<char>, Seq<char>)) -> bool {
    crate::scanner::language_of_path(p.0) == "rust"@ && crate::analyzer::rust_source_parses(p.1)
}

/// How many listed pairs analyze (each occurrence counted).
pub open spec fn analyzable_count(l: Seq<(Seq<char>, Seq<char>)>) -> int
    decreases l.len(),
{
    if l.len() == 0 {
        0
    } else {
        analyzable_count(l.drop_last()) + if pair_analyzes(l.last()) {
            1int
        } else {
            0int
        }
    }
}

/// No later listed pair bears the same path.
pub open spec fn is_last_occurrence(l: Seq<(Seq<char>, Seq<char>)>, i: int) -> bool {
    0 <= i < l.len() && forall|j: int| i < j < l.len() ==> (#[trigger] l[j]).0 != l[i].0
}

/// `a` is `b` with `b`'s modification stamp replaced by `a`'s: equal in
/// every field the clock does not set.
pub open spec fn node_like(a: crate::types::TreeNodeView, b: crate::types::TreeNodeView) -> bool {
    a == (crate::types::TreeNodeView { last_modified: a.last_modified, ..b })
}

/// Builder-collected configuration for a `LoreGrep` engine.
pub struct LoreGrepBuilder {
    pub max_files: Option<usize>,
    pub cache_ttl_seconds: u64,
    pub scan_config: ScannerConfig,
    pub rust_analyzer_enabled: bool,
    pub python_analyzer_enabled: bool,
}

impl LoreGrepBuilder {
    pub fn new() -> (r: Self)
        ensures
            r.max_files is None,
            r.cache_ttl_seconds == 300,
            r.rust_analyzer_enabled,
            !r.python_analyzer_enabled,
    {
        LoreGrepBuilder {
            max_files: None,
            cache_ttl_seconds: 300,
            scan_config: ScannerConfig::new(),
            rust_analyzer_enabled: true,
            python_analyzer_enabled: false,
        }
    }

    /// Enables the Rust analyzer (the default).
    pub fn with_rust_analyzer(self) -> (r: Self)
        ensures
            r.rust_analyzer_enabled,
    {
        let mut r = self;
        r.rust_analyzer_enabled = true;
        r
    }

    /// Notes that the Python analyzer was asked for; it is a stub.
    pub fn with_python_analyzer(self) -> (r: Self)
        ensures
            r.python_analyzer_enabled,
    {
        let mut r = self;
        r.python_analyzer_enabled = true;
        r
    }

    /// Bounds how many files the index will hold.
    pub fn max_files(self, n: usize) -> (r: Self)
        ensures
            r.max_files == Some(n),
    {
        let mut r = self;
        r.max_files = Some(n);
        r
    }

    /// Sets the query-cache time-to-live in seconds.
    pub fn cache_ttl(self, seconds: u64) -> (r: Self)
        ensures
            r.cache_ttl_seconds == seconds,
    {
        let mut r = self;
        r.cache_ttl_seconds = seconds;
        r
    }

    /// Sets the include globs.
    pub fn include_patterns(self, patterns: Vec<String>) -> (r: Self)
        ensures
            r.scan_config.include_patterns == patterns,
    {
        let mut r = self;
        r.scan_config.include_patterns = patterns;
        r
    }

    /// Sets the exclude globs.
    pub fn exclude_patterns(self, patterns: Vec<String>) -> (r: Self)
        ensures
            r.scan_config.exclude_patterns == patterns,
    {
        let mut r = self;
        r.scan_config.exclude_patterns = patterns;
        r
    }

    /// Sets the largest file size scanned.
    pub fn max_file_size(self, bytes: u64) -> (r: Self)
        ensures
            r.scan_config.max_file_size == bytes,
    {
        let mut r = self;
        r.scan_config.max_file_size = bytes;
        r
    }

    /// Bounds the directory depth scanned.
    pub fn max_depth(self, depth: usize) -> (r: Self)
        ensures
            r.scan_config.max_depth == Some(depth),
    {
        let mut r = self;
        r.scan_config.max_depth = Some(depth);
        r
    }

    /// Sets whether symbolic links are followed.
    pub fn follow_symlinks(self, follow: bool) -> (r: Self)
        ensures
            r.scan_config.follow_symlinks == follow,
    {
        let mut r = self;
        r.scan_config.follow_symlinks = follow;
        r
    }

    /// Sets whether ignore rules are honored.
    pub fn respect_gitignore(self, respect: bool) -> (r: Self)
        ensures
            r.scan_config.respect_gitignore == respect,
    {
        let mut r = self;
        r.scan_config.respect_gitignore = respect;
        r
    }

    /// Builds the engine: a fresh, well-formed, unscanned index under this
    /// configuration.
    pub fn build(self) -> (r: LoreResult<LoreGrep>)
        ensures
            r matches Ok(lg) && {
                &&& lg.wf()
                &&& !lg.scanned
                &&& lg.map@.len() == 0
                &&& lg.map.max_files == self.max_files
                &&& lg.map.cache_ttl_seconds == self.cache_ttl_seconds
            },
    {
        let map = match self.max_files {
            Some(n) => RepoMap::new().with_max_files(n).with_cache_ttl(self.cache_ttl_seconds),
            None => RepoMap::new().with_cache_ttl(self.cache_ttl_seconds),
        };
        Ok(LoreGrep { map, scanned: false, config: self.scan_config })
    }
}

/// The engine: the index it owns, whether a scan has filled it, and the
/// scan configuration.
pub struct LoreGrep {
    pub map: RepoMap,
    pub scanned: bool,
    pub config: ScannerConfig,
}

impl LoreGrep {
    /// The engine is well-formed when its index is.
    pub open spec fn wf(&self) -> bool {
        self.map.wf()
    }

    /// Starts a builder with the default configuration.
    pub fn builder() -> (r: LoreGrepBuilder)
        ensures
            r.max_files is None,
            r.cache_ttl_seconds == 300,
            r.rust_analyzer_enabled,
    {
        LoreGrepBuilder::new()
    }

    /// Whether a scan has filled the index.
    pub fn is_scanned(&self) -> (r: bool)
        ensures
            r == self.scanned,
    {
        self.scanned
    }

    /// The aggregate metadata of the index.
    pub fn get_stats(&self) -> (r: LoreResult<&crate::repo_map::RepoMapMetadata>)
        ensures
            r matches Ok(m) && m == &self.map.metadata,
    {
        Ok(&self.map.metadata)
    }

    /// The static definitions of the tools.
    pub fn get_tool_definitions() -> (r: Vec<ToolSchema>)
        ensures
            r@.len() == crate::tools::tool_names().len(),
            forall|i: int|
                0 <= i < r@.len() ==> (#[trigger] r@[i])@.name == crate::tools::tool_names()[i],
    {
        crate::tools::get_tool_definitions()
    }

    /// Routes one tool call against the index.
    pub fn execute_tool(&self, name: &str, input: &JsonValue) -> (r: ToolStep)
        ensures
            r@ == execute_tool_step(&self.map, name@, input.jv()),
    {
        crate::tools::execute_tool(&self.map, name, input)
    }

    /// Ingests analyzed file contents: each `(path, content)` pair is
    /// analyzed under the path's detected language and added to the index;
    /// files that fail to analyze or would exceed the capacity are
    /// skipped; records whose paths the listing no longer holds are
    /// removed. Afterwards every record's path is a listed path; with no
    /// capacity bound, `files_scanned` counts exactly the pairs that
    /// analyze, and the last listed occurrence of each analyzable path is
    /// present as the analyzer's record (its modification stamp aside).
    #[verifier::rlimit(100)]
    pub fn scan_contents(&mut self, files: &Vec<(String, String)>) -> (r: LoreResult<ScanResult>)
        requires
            old(self).wf(),
        ensures
            final(self).wf(),
            final(self).scanned,
            forall|k: int|
                0 <= k < final(self).map@.len() ==> listed_path(
                    listing_view(files@),
                    (#[trigger] final(self).map@[k]).file_path,
                ),
            r matches Ok(sr) && {
                &&& sr.files_scanned <= files@.len()
                &&& sr.functions_found == final(self).map.metadata.total_functions
                &&& sr.structs_found == final(self).map.metadata.total_structs
                &&& strings_view(sr.languages@) == strings_view(
                    final(self).map.metadata.languages@,
                )
                &&& (old(self).map.max_files is None ==> sr.files_scanned == analyzable_count(
                    listing_view(files@),
                ))
            },
            old(self).map.max_files is None ==> forall|i0: int|
                is_last_occurrence(listing_view(files@), i0) && pair_analyzes(
                    #[trigger] listing_view(files@)[i0],
                ) ==> {
                    let l = listing_view(files@);
                    let fs = final(self).map@;
                    &&& crate::repo_map::has_path(fs, l[i0].0)
                    &&& node_like(
                        fs[crate::repo_map::path_index(fs, l[i0].0)],
                        crate::analyzer::analyzed_node_view(l[i0].1, l[i0].0),
                    )
                },
    {
        let ghost lv = listing_view(files@);
        let start = crate::clock::now_unix_millis();
        let mut scanned_count: usize = 0;
        let mut i: usize = 0;
        while i < files.len()
            invariant
                self.wf(),
                self.map.max_files == old(self).map.max_files,
                scanned_count <= i,
                i <= files.len(),
                lv == listing_view(files@),
                lv.len() == files@.len(),
                old(self).map.max_files is None ==> scanned_count == analyzable_count(
                    lv.subrange(0, i as int),
                ),
                old(self).map.max_files is None ==> forall|i0: int|
                    0 <= i0 < i && pair_analyzes(#[trigger] lv[i0]) && (forall|i1: int|
                        i0 < i1 < i ==> (#[trigger] lv[i1]).0 != lv[i0].0) ==> {
                        &&& crate::repo_map::has_path(self.map@, lv[i0].0)
                        &&& node_like(
                            self.map@[crate::repo_map::path_index(self.map@, lv[i0].0)],
                            crate::analyzer::analyzed_node_view(lv[i0].1, lv[i0].0),
                        )
                    },
            decreases files.len() - i,
        {
            proof {
                assert(lv[i as int] == (files@[i as int].0@, files@[i as int].1@));
                assert(lv.subrange(0, i + 1).drop_last() =~= lv.subrange(0, i as int));
                assert(lv.subrange(0, i + 1).last() == lv[i as int]);
            }
            let ghost pre = self.map@;
            let path = files[i].0.as_str();
            let language = crate::scanner::detect_language(path);
            match crate::analyzer::analyze(files[i].1.as_str(), path, language.as_str()) {
                Ok(node) => {
                    let mut node = node;
                    node.last_modified = crate::clock::now_unix_millis() / 1000;
                    let ghost nodev = node@;
                    proof {
                        assert(pair_analyzes(lv[i as int]));
                        assert(nodev.file_path == lv[i as int].0);
                        assert(node_like(
                            nodev,
                            crate::analyzer::analyzed_node_view(lv[i as int].1, lv[i as int].0),
                        )) by {
                            assert(nodev =~= (crate::types::TreeNodeView {
                                last_modified: nodev.last_modified,
                                ..crate::analyzer::analyzed_node_view(
                                    lv[i as int].1,
                                    lv[i as int].0,
                                )
                            }));
                        }
                    }
                    match self.map.add_file(node) {
                        Ok(()) => {
                            scanned_count = scanned_count + 1;
                            proof {
                                crate::repo_map::lemma_add_found_self(pre, nodev);
                                if old(self).map.max_files is None {
                                    assert(scanned_count == analyzable_count(
                                        lv.subrange(0, i + 1),
                                    ));
                                    assert forall|i0: int|
                                        0 <= i0 < i + 1 && pair_analyzes(#[trigger] lv[i0]) && (
                                        forall|i1: int|
                                            i0 < i1 < i + 1 ==> (#[trigger] lv[i1]).0
                                                != lv[i0].0) implies {
                                            &&& crate::repo_map::has_path(self.map@, lv[i0].0)
                                            &&& node_like(
                                                self.map@[crate::repo_map::path_index(
                                                    self.map@,
                                                    lv[i0].0,
                                                )],
                                                crate::analyzer::analyzed_node_view(
                                                    lv[i0].1,
                                                    lv[i0].0,
                                                ),
                                            )
                                        } by {
                                        if i0 < i {
                                            assert(pair_analyzes(lv[i0]) && (forall|i1: int|
                                                i0 < i1 < i ==> (#[trigger] lv[i1]).0
                                                    != lv[i0].0));
                                            assert(lv[i as int].0 != lv[i0].0);
                                            crate::repo_map::lemma_add_preserves_others(
                                                pre,
                                                nodev,
                                                lv[i0].0,
                                            );
                                        }
                                    }
                                }
                            }
                        },
                        Err(_) => {
                            proof {
                                assert(old(self).map.max_files is Some);
                            }
                        },
                    }
                },
                Err(_) => {
                    proof {
                        if old(self).map.max_files is None {
                            assert(!pair_analyzes(lv[i as int]));
                            assert(scanned_count == analyzable_count(lv.subrange(0, i + 1)));
                            assert forall|i0: int|
                                0 <= i0 < i + 1 && pair_analyzes(#[trigger] lv[i0]) && (forall|
                                    i1: int,
                                |
                                    i0 < i1 < i + 1 ==> (#[trigger] lv[i1]).0 != lv[i0].0) implies {
                                    &&& crate::repo_map::has_path(self.map@, lv[i0].0)
                                    &&& node_like(
                                        self.map@[crate::repo_map::path_index(
                                            self.map@,
                                            lv[i0].0,
                                        )],
                                        crate::analyzer::analyzed_node_view(lv[i0].1, lv[i0].0),
                                    )
                                } by {
                                assert(i0 < i);
                                assert(pair_analyzes(lv[i0]) && (forall|i1: int|
                                    i0 < i1 < i ==> (#[trigger] lv[i1]).0 != lv[i0].0));
                            }
                        }
                    }
                },
            }
            i = i + 1;
        }
        proof {
            assert(lv.subrange(0, lv.len() as int) =~= lv);
        }
        let ghost mid = self.map@;
        let mut stale: Vec<String> = Vec::new();
        let mut k: usize = 0;
        while k < self.map.files.len()
            invariant
                self.wf(),
                self.map@ == mid,
                lv == listing_view(files@),
                k <= self.map.files.len(),
                forall|j: int|
                    0 <= j < stale@.len() ==> !listed_path(
                        lv,
                        (#[trigger] stale@[j])@,
                    ),
                forall|k0: int|
                    0 <= k0 < k ==> listed_path(lv, (#[trigger] mid[k0]).file_path) || exists|
                        j: int,
                    | 0 <= j < stale@.len() && (#[trigger] stale@[j])@ == mid[k0].file_path,
            decreases self.map.files.len() - k,
        {
            let p = self.map.files[k].file_path.clone();
            proof {
                assert(p@ == mid[k as int].file_path);
            }
            let mut present = false;
            let mut m: usize = 0;
            while m < files.len()
                invariant
                    m <= files.len(),
                    lv == listing_view(files@),
                    lv.len() == files@.len(),
                    present ==> listed_path(lv, p@),
                    !present ==> forall|m0: int| 0 <= m0 < m ==> (#[trigger] lv[m0]).0 != p@,
                decreases files.len() - m,
            {
                proof {
                    assert(lv[m as int].0 == files@[m as int].0@);
                }
                if !present && str_eq(files[m].0.as_str(), p.as_str()) {
                    present = true;
                }
                m = m + 1;
            }
            if !present {
                let ghost pre_stale = stale@;
                stale.push(p);
                proof {
                    assert(stale@[stale@.len() - 1]@ == mid[k as int].file_path);
                    assert(forall|j: int|
                        0 <= j < pre_stale.len() ==> stale@[j] == pre_stale[j]);
                }
            } else {
                proof {
                    assert(listed_path(lv, mid[k as int].file_path));
                }
            }

            k = k + 1;
        }
        let ghost sv = stale@;
        let mut s: usize = 0;
        while s < stale.len()
            invariant
                self.wf(),
                self.map.max_files == old(self).map.max_files,
                sv == stale@,
                lv == listing_view(files@),
                s <= stale.len(),
                forall|j: int| 0 <= j < sv.len() ==> !listed_path(lv, (#[trigger] sv[j])@),
                forall|k0: int|
                    0 <= k0 < self.map@.len() ==> listed_path(
                        lv,
                        (#[trigger] self.map@[k0]).file_path,
                    ) || exists|j: int| s <= j < sv.len() && (#[trigger] sv[j])@
                        == self.map@[k0].file_path,
                old(self).map.max_files is None ==> forall|i0: int|
                    is_last_occurrence(lv, i0) && pair_analyzes(#[trigger] lv[i0]) ==> {
                        &&& crate::repo_map::has_path(self.map@, lv[i0].0)
                        &&& node_like(
                            self.map@[crate::repo_map::path_index(self.map@, lv[i0].0)],
                            crate::analyzer::analyzed_node_view(lv[i0].1, lv[i0].0),
                        )
                    },
            decreases stale.len() - s,
        {
            let ghost pre = self.map@;
            proof {
                assert(sv[s as int] == stale@[s as int]);
            }
            let _ = self.map.remove_file(stale[s].as_str());
            proof {
                let rp = sv[s as int]@;
                assert(self.map@ == crate::repo_map::remove_path(pre, rp));
                assert forall|k0: int|
                    0 <= k0 < self.map@.len() implies listed_path(
                    lv,
                    (#[trigger] self.map@[k0]).file_path,
                ) || exists|j: int| s + 1 <= j < sv.len() && (#[trigger] sv[j])@
                    == self.map@[k0].file_path by {
                    crate::repo_map::lemma_path_index_bounds(pre, rp);
                    if crate::repo_map::path_index(pre, rp) >= 0 {
                        crate::repo_map::lemma_remove_path_at(pre, rp);
                        let ip = crate::repo_map::path_index(pre, rp);
                        let k1 = if k0 < ip {
                            k0
                        } else {
                            k0 + 1
                        };
                        assert(self.map@[k0] == pre[k1]);
                        if !listed_path(lv, pre[k1].file_path) {
                            let j = choose|j: int|
                                s <= j < sv.len() && (#[trigger] sv[j])@ == pre[k1].file_path;
                            assert(pre[k1].file_path != rp);
                            assert(j != s);
                        }
                    } else {
                        crate::repo_map::lemma_remove_path_not_found(pre, rp);
                        assert(self.map@[k0] == pre[k0]);
                        if !listed_path(lv, pre[k0].file_path) {
                            let j = choose|j: int|
                                s <= j < sv.len() && (#[trigger] sv[j])@ == pre[k0].file_path;
                            assert(pre[k0].file_path != rp);
                            assert(j != s);
                        }
                    }
                }
                if old(self).map.max_files is None {
                    assert forall|i0: int|
                        is_last_occurrence(lv, i0) && pair_analyzes(#[trigger] lv[i0]) implies {
                            &&& crate::repo_map::has_path(self.map@, lv[i0].0)
                            &&& node_like(
                                self.map@[crate::repo_map::path_index(self.map@, lv[i0].0)],
                                crate::analyzer::analyzed_node_view(lv[i0].1, lv[i0].0),
                            )
                        } by {
                        assert(!listed_path(lv, rp));
                        assert(lv[i0].0 != rp);
                        crate::repo_map::lemma_remove_preserves_others(pre, rp, lv[i0].0);
                    }
                }
            }
            s = s + 1;
        }
        proof {
            assert forall|k0: int|
                0 <= k0 < self.map@.len() implies listed_path(
                lv,
                (#[trigger] self.map@[k0]).file_path,
            ) by {
                if !listed_path(lv, self.map@[k0].file_path) {
                    let j = choose|j: int|
                        s <= j < sv.len() && (#[trigger] sv[j])@ == self.map@[k0].file_path;
                }
            }
        }
        self.scanned = true;
        let end = crate::clock::now_unix_millis();
        let duration_ms = if end >= start {
            end - start
        } else {
            0
        };
        let mut languages: Vec<String> = Vec::new();
        let ghost lv = strings_view(self.map.metadata.languages@);
        let mut li: usize = 0;
        while li < self.map.metadata.languages.len()
            invariant
                li <= self.map.metadata.languages.len(),
                lv == strings_view(self.map.metadata.languages@),
                lv.len() == self.map.metadata.languages@.len(),
                strings_view(languages@) =~= lv.subrange(0, li as int),
            decreases self.map.metadata.languages.len() - li,
        {
            proof {
                assert(self.map.metadata.languages@[li as int]@ == lv[li as int]);
            }
            let ghost pre = strings_view(languages@);
            let entry = self.map.metadata.languages[li].clone();
            proof {
                assert(entry@ == lv[li as int]);
            }
            languages.push(entry);
            proof {
                assert(strings_view(languages@) =~= pre.push(lv[li as int]));
                assert(pre.push(lv[li as int]) =~= lv.subrange(0, li + 1));
            }
            li = li + 1;
        }
        proof {
            assert(lv.subrange(0, lv.len() as int) =~= lv);
            assert(strings_view(languages@) =~= strings_view(self.map.metadata.languages@));
        }
        Ok(
            ScanResult {
                files_scanned: scanned_count,
                functions_found: self.map.metadata.total_functions,
                structs_found: self.map.metadata.total_structs,
                duration_ms,
                languages,
            },
        )
    }
}

} // verus!
