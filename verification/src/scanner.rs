//! File discovery semantics: which files of a directory listing are
//! scanned. The walk itself is the caller's job; this module decides, for
//! plain listing entries, what is included, what is filtered, and in what
//! order the survivors come out.

use vstd::prelude::*;
use crate::text::{str_eq, contains_sub, is_prefix_of, str_starts_with};
use crate::repo_map::strings_view;

verus! {

/// The scanner's configuration: include and exclude globs, the size bound,
/// symlink and depth policy, and whether ignore rules are honored.
pub struct ScannerConfig {
    pub include_patterns: Vec<String>,
    pub exclude_patterns: Vec<String>,
    pub max_file_size: u64,
    pub follow_symlinks: bool,
    pub max_depth: Option<usize>,
    pub respect_gitignore: bool,
}

/// One entry of a directory listing, as the walker hands it in: a
/// forward-slash relative path, the file size, and whether the entry is a
/// symbolic link.
pub struct ListingEntry {
    pub relative_path: String,
    pub size: u64,
    pub is_symlink: bool,
}

/// Ghost view of a `ListingEntry`.
#[verifier::ext_equal]
pub struct ListingEntryView {
    pub relative_path: Seq<char>,
    pub size: u64,
    pub is_symlink: bool,
}

impl View for ListingEntry {
    type V = ListingEntryView;

    open spec fn view(&self) -> ListingEntryView {
        ListingEntryView {
            relative_path: self.relative_path@,
            size: self.size,
            is_symlink: self.is_symlink,
        }
    }
}

/// One ignore rule: the pattern text of one line of an ignore file.
pub struct IgnoreRule {
    pub pattern: String,
}

/// A discovered file: its relative path and detected language.
pub struct DiscoveredFile {
    pub relative_path: String,
    pub language: String,
    pub size: u64,
}

/// Ghost view of a `DiscoveredFile`.
#[verifier::ext_equal]
pub struct DiscoveredFileView {
    pub relative_path: Seq<char>,
    pub language: Seq<char>,
    pub size: u64,
}

impl View for DiscoveredFile {
    type V = DiscoveredFileView;

    open spec fn view(&self) -> DiscoveredFileView {
        DiscoveredFileView {
            relative_path: self.relative_path@,
            language: self.language@,
            size: self.size,
        }
    }
}

/// What a scan of a listing found: the files to analyze, in listing order,
/// and how many entries the filters kept and dropped.
pub struct ScanManifest {
    pub files: Vec<DiscoveredFile>,
    pub total_found: usize,
    pub total_filtered: usize,
}

/// The extension of a path: the text after the last dot of its last
/// component, empty when there is no dot.
pub open spec fn extension_of(path: Seq<char>) -> Seq<char> {
    let d = crate::analyzer::last_char_at(path, '.');
    let s = crate::analyzer::last_char_at(path, '/');
    if d < 0 || d < s {
        Seq::empty()
    } else {
        path.subrange(d + 1, path.len() as int)
    }
}

/// The language of an extension: only `rs` and `py` are known.
pub open spec fn language_of_extension(ext: Seq<char>) -> Seq<char> {
    if ext == "rs"@ {
        "rust"@
    } else if ext == "py"@ {
        "python"@
    } else {
        "unknown"@
    }
}

/// The language detected for a path.
pub open spec fn language_of_path(path: Seq<char>) -> Seq<char> {
    language_of_extension(extension_of(path))
}

/// Detects a file's language from its extension.
pub fn detect_language(path: &str) -> (r: String)
    ensures
        r@ == language_of_path(path@),
{
    let n = path.unicode_len();
    let ext: String = match crate::analyzer::find_last_char(path, '.') {
        Some(d) => {
            match crate::analyzer::find_last_char(path, '/') {
                Some(s) => {
                    if d < s {
                        String::new()
                    } else {
                        let e = path.substring_char(d + 1, n).to_owned();
                        proof {
                            assert(e@ =~= extension_of(path@));
                        }
                        e
                    }
                },
                None => {
                    let e = path.substring_char(d + 1, n).to_owned();
                    proof {
                        assert(e@ =~= extension_of(path@));
                    }
                    e
                },
            }
        },
        None => String::new(),
    };
    proof {
        assert(ext@ == extension_of(path@));
    }
    if str_eq(ext.as_str(), "rs") {
        let r = "rust".to_owned();
        r
    } else if str_eq(ext.as_str(), "py") {
        let r = "python".to_owned();
        r
    } else {
        let r = "unknown".to_owned();
        r
    }
}

/// Glob matching: `*` matches any run of characters, `?` any one
/// character, every other character itself.
pub open spec fn glob_match(p: Seq<char>, s: Seq<char>) -> bool
    decreases p.len() + s.len(),
{
    if p.len() == 0 {
        s.len() == 0
    } else if p[0] == '*' {
        glob_match(p.drop_first(), s) || (s.len() > 0 && glob_match(p, s.drop_first()))
    } else {
        s.len() > 0 && (p[0] == '?' || p[0] == s[0]) && glob_match(p.drop_first(), s.drop_first())
    }
}

fn glob_match_at(p: &str, s: &str, pi: usize, si: usize) -> (r: bool)
    requires
        pi <= p@.len(),
        si <= s@.len(),
    ensures
        r == glob_match(
            p@.subrange(pi as int, p@.len() as int),
            s@.subrange(si as int, s@.len() as int),
        ),
    decreases p@.len() - pi + s@.len() - si,
{
    let pn = p.unicode_len();
    let sn = s.unicode_len();
    let ghost pt = p@.subrange(pi as int, p@.len() as int);
    let ghost st = s@.subrange(si as int, s@.len() as int);
    if pi >= pn {
        si >= sn
    } else {
        let c = p.get_char(pi);
        proof {
            assert(pt[0] == p@[pi as int]);
            assert(pt.drop_first() =~= p@.subrange(pi + 1, p@.len() as int));
        }
        if c == '*' {
            if glob_match_at(p, s, pi + 1, si) {
                true
            } else if si < sn {
                proof {
                    assert(st.drop_first() =~= s@.subrange(si + 1, s@.len() as int));
                }
                glob_match_at(p, s, pi, si + 1)
            } else {
                false
            }
        } else {
            if si >= sn {
                false
            } else {
                let sc = s.get_char(si);
                proof {
                    assert(st[0] == s@[si as int]);
                    assert(st.drop_first() =~= s@.subrange(si + 1, s@.len() as int));
                }
                if c == '?' || c == sc {
                    glob_match_at(p, s, pi + 1, si + 1)
                } else {
                    false
                }
            }
        }
    }
}

/// Decides `glob_match` for a pattern and a text.
pub fn glob_matches(p: &str, s: &str) -> (r: bool)
    ensures
        r == glob_match(p@, s@),
{
    let r = glob_match_at(p, s, 0, 0);
    proof {
        assert(p@.subrange(0, p@.len() as int) =~= p@);
        assert(s@.subrange(0, s@.len() as int) =~= s@);
    }
    r
}

/// Whether any pattern of the list glob-matches the path or occurs in it.
pub open spec fn any_pattern_matches(patterns: Seq<Seq<char>>, path: Seq<char>) -> bool {
    exists|i: int|
        0 <= i < patterns.len() && (glob_match(#[trigger] patterns[i], path) || contains_sub(
            path,
            patterns[i],
        ))
}

fn matches_any(patterns: &Vec<String>, path: &str) -> (r: bool)
    ensures
        r == any_pattern_matches(strings_view(patterns@), path@),
{
    let ghost pv = strings_view(patterns@);
    let mut i: usize = 0;
    while i < patterns.len()
        invariant
            i <= patterns.len(),
            pv == strings_view(patterns@),
            pv.len() == patterns@.len(),
            forall|j: int|
                0 <= j < i ==> !(glob_match(#[trigger] pv[j], path@) || contains_sub(
                    path@,
                    pv[j],
                )),
        decreases patterns.len() - i,
    {
        proof {
            assert(pv[i as int] == patterns@[i as int]@);
        }
        if glob_matches(patterns[i].as_str(), path) || crate::text::str_contains(
            path,
            patterns[i].as_str(),
        ) {
            return true;
        }
        i = i + 1;
    }
    false
}

/// The number of directory separators in a path: its depth.
pub open spec fn depth_of(path: Seq<char>) -> int
    decreases path.len(),
{
    if path.len() == 0 {
        0
    } else {
        depth_of(path.drop_last()) + if path.last() == '/' {
            1int
        } else {
            0int
        }
    }
}

fn path_depth(path: &str) -> (r: usize)
    ensures
        r == depth_of(path@),
{
    let n = path.unicode_len();
    let mut count: usize = 0;
    let mut i: usize = 0;
    while i < n
        invariant
            n == path@.len(),
            i <= n,
            count == depth_of(path@.subrange(0, i as int)),
            count <= i,
        decreases n - i,
    {
        proof {
            assert(path@.subrange(0, i + 1).drop_last() =~= path@.subrange(0, i as int));
            assert(path@.subrange(0, i + 1).last() == path@[i as int]);
        }
        if path.get_char(i) == '/' {
            count = count + 1;
        }
        i = i + 1;
    }
    proof {
        assert(path@.subrange(0, n as int) =~= path@);
    }
    count
}

/// Whether an ignore rule matches the path: the rule (a trailing slash
/// stripped) is a path component, a prefix of the path, or a glob or
/// substring match.
pub open spec fn ignore_rule_matches(rule: Seq<char>, path: Seq<char>) -> bool {
    let r = if rule.len() > 0 && rule.last() == '/' {
        rule.drop_last()
    } else {
        rule
    };
    r.len() > 0 && (is_prefix_of(r, path) || contains_sub(path, seq!['/'] + r) || contains_sub(
        path,
        r + seq!['/'],
    ) || glob_match(r, path))
}

fn ignore_matches(rule: &str, path: &str) -> (r: bool)
    ensures
        r == ignore_rule_matches(rule@, path@),
{
    let n = rule.unicode_len();
    let stripped: String = if n > 0 && rule.get_char(n - 1) == '/' {
        let s = rule.substring_char(0, n - 1).to_owned();
        proof {
            assert(s@ =~= rule@.drop_last());
        }
        s
    } else {
        rule.to_owned()
    };
    let sn = stripped.as_str().unicode_len();
    if sn == 0 {
        return false;
    }
    if str_starts_with(path, stripped.as_str()) {
        return true;
    }
    let mut with_lead = "/".to_owned();
    with_lead.append(stripped.as_str());
    proof {
        reveal_strlit("/");
        assert(with_lead@ =~= seq!['/'] + stripped@);
    }
    if crate::text::str_contains(path, with_lead.as_str()) {
        return true;
    }
    let mut with_trail = stripped.clone();
    with_trail.append("/");
    proof {
        reveal_strlit("/");
        assert(with_trail@ =~= stripped@ + seq!['/']);
    }
    if crate::text::str_contains(path, with_trail.as_str()) {
        return true;
    }
    glob_matches(stripped.as_str(), path)
}

/// Whether any ignore rule matches.
pub open spec fn any_ignore_matches(rules: Seq<Seq<char>>, path: Seq<char>) -> bool {
    exists|i: int| 0 <= i < rules.len() && ignore_rule_matches(#[trigger] rules[i], path)
}

/// The views of the ignore rules.
pub open spec fn rules_view(rules: Seq<IgnoreRule>) -> Seq<Seq<char>> {
    rules.map_values(|r: IgnoreRule| r.pattern@)
}

fn any_ignored(rules: &Vec<IgnoreRule>, path: &str) -> (r: bool)
    ensures
        r == any_ignore_matches(rules_view(rules@), path@),
{
    let ghost rv = rules_view(rules@);
    let mut i: usize = 0;
    while i < rules.len()
        invariant
            i <= rules.len(),
            rv == rules_view(rules@),
            rv.len() == rules@.len(),
            forall|j: int| 0 <= j < i ==> !ignore_rule_matches(#[trigger] rv[j], path@),
        decreases rules.len() - i,
    {
        proof {
            assert(rv[i as int] == rules@[i as int].pattern@);
        }
        if ignore_matches(rules[i].pattern.as_str(), path) {
            return true;
        }
        i = i + 1;
    }
    false
}

impl ScannerConfig {
    /// The default configuration: no explicit globs, a 1 MiB size bound,
    /// no symlinks, unlimited depth, ignore rules honored.
    pub fn new() -> (r: Self)
        ensures
            r.include_patterns@.len() == 0,
            r.exclude_patterns@.len() == 0,
            r.max_file_size == 1048576,
            !r.follow_symlinks,
            r.max_depth is None,
            r.respect_gitignore,
    {
        ScannerConfig {
            include_patterns: Vec::new(),
            exclude_patterns: Vec::new(),
            max_file_size: 1048576,
            follow_symlinks: false,
            max_depth: None,
            respect_gitignore: true,
        }
    }

    /// Whether one listing entry is scanned under this configuration: its
    /// language must be known, any include globs must accept it, no
    /// exclude glob or honored ignore rule may reject it, and the size,
    /// symlink and depth bounds must hold.
    pub open spec fn entry_included(&self, e: ListingEntryView, rules: Seq<Seq<char>>) -> bool {
        &&& language_of_path(e.relative_path) != "unknown"@
        &&& (strings_view(self.include_patterns@).len() == 0 || any_pattern_matches(
            strings_view(self.include_patterns@),
            e.relative_path,
        ))
        &&& !any_pattern_matches(strings_view(self.exclude_patterns@), e.relative_path)
        &&& e.size <= self.max_file_size
        &&& (self.follow_symlinks || !e.is_symlink)
        &&& (match self.max_depth {
            Some(d) => depth_of(e.relative_path) <= d as int,
            None => true,
        })
        &&& (!self.respect_gitignore || !any_ignore_matches(rules, e.relative_path))
    }
}

/// The entries the configuration keeps, in listing order, as discovered
/// files bearing their detected language.
pub open spec fn included_files(
    config: &ScannerConfig,
    entries: Seq<ListingEntryView>,
    rules: Seq<Seq<char>>,
) -> Seq<DiscoveredFileView>
    decreases entries.len(),
{
    if entries.len() == 0 {
        Seq::empty()
    } else {
        included_files(config, entries.drop_last(), rules) + if config.entry_included(
            entries.last(),
            rules,
        ) {
            seq![
                DiscoveredFileView {
                    relative_path: entries.last().relative_path,
                    language: language_of_path(entries.last().relative_path),
                    size: entries.last().size,
                },
            ]
        } else {
            Seq::empty()
        }
    }
}

/// The views of the listing entries.
pub open spec fn entries_view(s: Seq<ListingEntry>) -> Seq<ListingEntryView> {
    s.map_values(|e: ListingEntry| e@)
}

/// The views of the discovered files.
pub open spec fn discovered_view(s: Seq<DiscoveredFile>) -> Seq<DiscoveredFileView> {
    s.map_values(|e: DiscoveredFile| e@)
}

/// Applies the configuration to a directory listing: the kept entries in
/// listing order, `total_found` counting them and `total_filtered` the
/// rest. The listing order is the walker's; handing the entries in sorted
/// by path makes the output deterministic for identical filesystem state.
pub fn scan_listing(config: &ScannerConfig, entries: &Vec<ListingEntry>, rules: &Vec<IgnoreRule>)
    -> (r: ScanManifest)
    ensures
        discovered_view(r.files@) == included_files(config, entries_view(entries@), rules_view(rules@)),
        r.total_found == r.files@.len(),
        r.total_found + r.total_filtered == entries@.len(),
{
    let ghost ev = entries_view(entries@);
    let ghost rv = rules_view(rules@);
    let mut files: Vec<DiscoveredFile> = Vec::new();
    let mut filtered: usize = 0;
    let mut i: usize = 0;
    while i < entries.len()
        invariant
            i <= entries.len(),
            ev == entries_view(entries@),
            rv == rules_view(rules@),
            ev.len() == entries@.len(),
            discovered_view(files@) == included_files(config, ev.subrange(0, i as int), rv),
            files@.len() + filtered == i,
        decreases entries.len() - i,
    {
        let ghost pre = discovered_view(files@);
        proof {
            assert(ev.subrange(0, i + 1).drop_last() =~= ev.subrange(0, i as int));
            assert(ev.subrange(0, i + 1).last() == ev[i as int]);
            assert(ev[i as int] == entries@[i as int]@);
        }
        let e = &entries[i];
        let language = detect_language(e.relative_path.as_str());
        let known = !str_eq(language.as_str(), "unknown");
        let include_ok = if patterns_empty(&config.include_patterns) {
            true
        } else {
            matches_any(&config.include_patterns, e.relative_path.as_str())
        };
        let exclude_hit = matches_any(&config.exclude_patterns, e.relative_path.as_str());
        let size_ok = e.size <= config.max_file_size;
        let symlink_ok = config.follow_symlinks || !e.is_symlink;
        let depth_ok = match config.max_depth {
            Some(d) => path_depth(e.relative_path.as_str()) <= d,
            None => true,
        };
        let ignore_ok = if config.respect_gitignore {
            !any_ignored(rules, e.relative_path.as_str())
        } else {
            true
        };
        if known && include_ok && !exclude_hit && size_ok && symlink_ok && depth_ok && ignore_ok {
            let f = DiscoveredFile {
                relative_path: e.relative_path.clone(),
                language,
                size: e.size,
            };
            proof {
                assert(config.entry_included(ev[i as int], rv));
            }
            files.push(f);
            proof {
                assert(discovered_view(files@) =~= pre + seq![
                    DiscoveredFileView {
                        relative_path: ev[i as int].relative_path,
                        language: language_of_path(ev[i as int].relative_path),
                        size: ev[i as int].size,
                    },
                ]);
            }
        } else {
            filtered = filtered + 1;
            proof {
                assert(!config.entry_included(ev[i as int], rv));
            }
        }
        proof {
            assert(discovered_view(files@) =~= included_files(
                config,
                ev.subrange(0, i + 1),
                rv,
            ));
        }
        i = i + 1;
    }
    proof {
        assert(ev.subrange(0, ev.len() as int) =~= ev);
    }
    let total_found = files.len();
    ScanManifest { files, total_found, total_filtered: filtered }
}

fn patterns_empty(patterns: &Vec<String>) -> (r: bool)
    ensures
        r == (strings_view(patterns@).len() == 0),
{
    patterns.len() == 0
}

} // verus!
