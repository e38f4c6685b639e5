//! The language analyzer: turns source text into a `TreeNode`. A grammar
//! query yields flat capture groups (name, text, position per capture);
//! everything from there on — parameter and field parsing, visibility,
//! caller resolution, the content digest — is verified logic over those
//! plain values.

use vstd::prelude::*;
use crate::types::{
    TreeNode, TreeNodeView, FunctionSignature, FunctionSignatureView, Parameter, ParameterView,
    StructSignature, StructSignatureView, StructField, StructFieldView, ImportStatement,
    ImportStatementView, ExportStatement, ExportStatementView, FunctionCall, FunctionCallView,
    params_view, fns_view, structs_view, fields_view, imports_view, exports_view, calls_view,
};
use crate::text::{str_eq, str_starts_with, str_contains, is_prefix_of, contains_sub, u64_to_string, u64_digits};

verus! {

/// One named capture: its capture name, the covered text, and its 0-based
/// position in the source.
pub struct Capture {
    pub name: String,
    pub text: String,
    pub row: u32,
    pub col: u32,
    pub end_row: u32,
}

/// Ghost view of a `Capture`.
#[verifier::ext_equal]
pub struct CaptureView {
    pub name: Seq<char>,
    pub text: Seq<char>,
    pub row: u32,
    pub col: u32,
    pub end_row: u32,
}

impl View for Capture {
    type V = CaptureView;

    open spec fn view(&self) -> CaptureView {
        CaptureView {
            name: self.name@,
            text: self.text@,
            row: self.row,
            col: self.col,
            end_row: self.end_row,
        }
    }
}

/// The captures of one query match, in capture order.
pub struct CaptureGroup {
    pub captures: Vec<Capture>,
}

/// The views of one group's captures.
pub open spec fn group_view(g: &CaptureGroup) -> Seq<CaptureView> {
    g.captures@.map_values(|c: Capture| c@)
}

/// The views of a sequence of groups.
pub open spec fn groups_view(gs: Seq<CaptureGroup>) -> Seq<Seq<CaptureView>> {
    gs.map_values(|g: CaptureGroup| g.captures@.map_values(|c: Capture| c@))
}

#[verifier::external_type_specification]
#[verifier::external_body]
pub struct ExTree(tree_sitter::Tree);

#[verifier::external_type_specification]
#[verifier::external_body]
pub struct ExQuery(tree_sitter::Query);

#[verifier::external_type_specification]
#[verifier::external_body]
pub struct ExQueryCapture<'a>(tree_sitter::QueryCapture<'a>);

/// Relies on tree_sitter::Parser::set_language and
/// tree_sitter::Parser::parse with tree_sitter_rust::LANGUAGE: parses
/// `source` under the Rust grammar, `None` when parsing fails.
#[verifier::external_body]
fn rust_parse(source: &str) -> (r: Option<tree_sitter::Tree>)
{
    let language: tree_sitter::Language = tree_sitter_rust::LANGUAGE.into();
    let mut parser = tree_sitter::Parser::new();
    parser.set_language(&language).ok()?;
    parser.parse(source, None)
}

/// Relies on tree_sitter::Query::new with tree_sitter_rust::LANGUAGE:
/// compiles one query pattern, `None` when it is rejected.
#[verifier::external_body]
fn rust_query(query_source: &str) -> (r: Option<tree_sitter::Query>)
{
    let language: tree_sitter::Language = tree_sitter_rust::LANGUAGE.into();
    tree_sitter::Query::new(&language, query_source).ok()
}

/// Relies on tree_sitter::Query::capture_names, tree_sitter::Node::utf8_text,
/// tree_sitter::Node::start_position and end_position: one capture's name,
/// covered text and 0-based position as plain values.
#[verifier::external_body]
fn capture_of(query: &tree_sitter::Query, c: &tree_sitter::QueryCapture<'_>, source: &str) -> (r:
    Capture)
{
    let p = c.node.start_position();
    Capture { name: query.capture_names()[c.index as usize].to_string(), text: c.node.utf8_text(source.as_bytes()).unwrap_or("").to_string(), row: p.row as u32, col: p.column as u32, end_row: c.node.end_position().row as u32 }
}

/// Relies on tree_sitter::QueryCursor::matches, iterated through the
/// streaming_iterator crate: every match of `query` over `tree`, each
/// capture converted to plain values by `capture_of`.
#[verifier::external_body]
fn collect_matches(tree: &tree_sitter::Tree, query: &tree_sitter::Query, source: &str) -> (r: Vec<
    CaptureGroup,
>)
{
    let mut cursor = tree_sitter::QueryCursor::new();
    let mut matches = cursor.matches(query, tree.root_node(), source.as_bytes());
    let mut groups: Vec<CaptureGroup> = Vec::new();
    while let Some(m) = streaming_iterator::StreamingIterator::next(&mut matches) {
        let mut captures: Vec<Capture> = Vec::new();
        for c in m.captures().iter() {
            captures.push(capture_of(query, c, source));
        }
        groups.push(CaptureGroup { captures });
    }
    groups
}

/// What parsing `source` under the Rust grammar and running `query` over
/// the tree yields: per match, each capture's name, covered text and
/// 0-based position; `None` when the parse or the query fails. Parsing and
/// querying are functions of the two texts alone.
pub uninterp spec fn rust_matches_of(source: Seq<char>, query: Seq<char>) -> Option<
    Seq<Seq<CaptureView>>,
>;

/// Relies on the three stage helpers above, and through them on
/// tree_sitter's Parser::parse, Query::new and QueryCursor::matches: the
/// collected matches are a function of the source and query texts, named
/// `rust_matches_of`.
#[verifier::external_body]
fn rust_query_matches(source: &str, query_source: &str) -> (r: Option<Vec<CaptureGroup>>)
    ensures
        match r {
            Some(groups) => rust_matches_of(source@, query_source@) == Some(groups_view(groups@)),
            None => rust_matches_of(source@, query_source@) is None,
        },
{
    let tree = rust_parse(source)?;
    let query = rust_query(query_source)?;
    Some(collect_matches(&tree, &query, source))
}

/// The first capture with this name, if any.
pub open spec fn first_capture(g: Seq<CaptureView>, name: Seq<char>) -> Option<CaptureView>
    decreases g.len(),
{
    if g.len() == 0 {
        None
    } else if g[0].name == name {
        Some(g[0])
    } else {
        first_capture(g.drop_first(), name)
    }
}

fn find_capture<'a>(g: &'a CaptureGroup, name: &str) -> (r: Option<&'a Capture>)
    ensures
        match r {
            Some(c) => first_capture(group_view(g), name@) == Some(c@),
            None => first_capture(group_view(g), name@) is None,
        },
{
    let ghost gv = group_view(g);
    proof {
        assert(gv.subrange(0, gv.len() as int) =~= gv);
    }
    let mut i: usize = 0;
    while i < g.captures.len()
        invariant
            i <= g.captures.len(),
            gv == group_view(g),
            gv.len() == g.captures@.len(),
            first_capture(gv, name@) == first_capture(
                gv.subrange(i as int, gv.len() as int),
                name@,
            ),
        decreases g.captures.len() - i,
    {
        let ghost tail = gv.subrange(i as int, gv.len() as int);
        proof {
            assert(tail[0] == gv[i as int]);
            assert(tail.drop_first() =~= gv.subrange(i + 1, gv.len() as int));
            assert(gv[i as int] == g.captures@[i as int]@);
        }
        if str_eq(g.captures[i].name.as_str(), name) {
            return Some(&g.captures[i]);
        }
        i = i + 1;
    }
    proof {
        assert(gv.subrange(i as int, gv.len() as int).len() == 0);
    }
    None
}

/// `row + 1` saturating at the type bound: rows are 0-based, lines 1-based.
pub open spec fn one_based(row: u32) -> u32 {
    if row == u32::MAX {
        row
    } else {
        (row + 1) as u32
    }
}

fn to_one_based(row: u32) -> (r: u32)
    ensures
        r == one_based(row),
{
    if row == u32::MAX {
        row
    } else {
        row + 1
    }
}

/// `s` without leading and trailing spaces.
pub open spec fn trim_spaces(s: Seq<char>) -> Seq<char>
    decreases s.len(),
{
    if s.len() == 0 {
        s
    } else if s[0] == ' ' {
        trim_spaces(s.drop_first())
    } else if s.last() == ' ' {
        trim_spaces(s.drop_last())
    } else {
        s
    }
}

fn trim_str(s: &str) -> (r: String)
    ensures
        r@ == trim_spaces(s@),
    decreases s@.len(),
{
    let n = s.unicode_len();
    if n == 0 {
        s.to_owned()
    } else if s.get_char(0) == ' ' {
        let rest = s.substring_char(1, n);
        proof {
            assert(rest@ =~= s@.drop_first());
        }
        trim_str(rest)
    } else {
        let last = s.get_char(n - 1);
        if last == ' ' {
            let rest = s.substring_char(0, n - 1);
            proof {
                assert(rest@ =~= s@.drop_last());
            }
            trim_str(rest)
        } else {
            s.to_owned()
        }
    }
}

/// Whether `c` opens a bracketed region that hides commas.
pub open spec fn is_opener(c: char) -> bool {
    c == '(' || c == '[' || c == '{' || c == '<'
}

/// Whether `c` closes a bracketed region.
pub open spec fn is_closer(c: char) -> bool {
    c == ')' || c == ']' || c == '}' || c == '>'
}

/// The pieces of `s` split on commas that sit outside every bracket pair,
/// scanning from position `i` at nesting `depth`, the current piece having
/// begun at `start`.
pub open spec fn split_top(s: Seq<char>, i: int, depth: int, start: int) -> Seq<Seq<char>>
    decreases s.len() - i,
{
    if i < start || start < 0 || i > s.len() {
        Seq::empty()
    } else if i >= s.len() {
        seq![s.subrange(start, i)]
    } else if s[i] == ',' && depth == 0 {
        seq![s.subrange(start, i)] + split_top(s, i + 1, 0, i + 1)
    } else if is_opener(s[i]) {
        split_top(s, i + 1, depth + 1, start)
    } else if is_closer(s[i]) {
        split_top(s, i + 1, if depth > 0 { depth - 1 } else { 0 }, start)
    } else {
        split_top(s, i + 1, depth, start)
    }
}

fn split_top_str(s: &str, i: usize, depth: usize, start: usize) -> (r: Vec<String>)
    requires
        start <= i <= s@.len(),
        depth <= i,
    ensures
        crate::repo_map::strings_view(r@) == split_top(s@, i as int, depth as int, start as int),
    decreases s@.len() - i,
{
    let n = s.unicode_len();
    if i >= n {
        let piece = s.substring_char(start, n).to_owned();
        let mut r: Vec<String> = Vec::new();
        r.push(piece);
        proof {
            assert(crate::repo_map::strings_view(r@) =~= seq![
                s@.subrange(start as int, i as int),
            ]);
        }
        r
    } else {
        let c = s.get_char(i);
        if c == ',' && depth == 0 {
            let piece = s.substring_char(start, i).to_owned();
            let mut r = split_top_str(s, i + 1, 0, i + 1);
            r.insert(0, piece);
            proof {
                assert(crate::repo_map::strings_view(r@) =~= seq![
                    s@.subrange(start as int, i as int),
                ] + split_top(s@, i + 1, 0, i + 1));
            }
            r
        } else if c == '(' || c == '[' || c == '{' || c == '<' {
            split_top_str(s, i + 1, depth + 1, start)
        } else if c == ')' || c == ']' || c == '}' || c == '>' {
            split_top_str(s, i + 1, if depth > 0 { depth - 1 } else { 0 }, start)
        } else {
            split_top_str(s, i + 1, depth, start)
        }
    }
}

/// The position of the first `needle` character in `s`, or -1.
pub open spec fn first_char_at(s: Seq<char>, needle: char) -> int
    decreases s.len(),
{
    if s.len() == 0 {
        -1
    } else if s[0] == needle {
        0
    } else {
        let r = first_char_at(s.drop_first(), needle);
        if r < 0 {
            -1
        } else {
            r + 1
        }
    }
}

fn find_char(s: &str, needle: char) -> (r: Option<usize>)
    ensures
        match r {
            Some(i) => first_char_at(s@, needle) == i as int && i < s@.len(),
            None => first_char_at(s@, needle) < 0,
        },
{
    let n = s.unicode_len();
    let mut i: usize = 0;
    while i < n
        invariant
            n == s@.len(),
            i <= n,
            forall|j: int| 0 <= j < i ==> s@[j] != needle,
        decreases n - i,
    {
        if s.get_char(i) == needle {
            proof {
                lemma_first_char_at_scan(s@, needle, i as int);
            }
            return Some(i);
        }
        i = i + 1;
    }
    proof {
        lemma_first_char_at_none(s@, needle);
    }
    None
}

proof fn lemma_first_char_at_scan(s: Seq<char>, needle: char, i: int)
    requires
        0 <= i < s.len(),
        s[i] == needle,
        forall|j: int| 0 <= j < i ==> s[j] != needle,
    ensures
        first_char_at(s, needle) == i,
    decreases s.len(),
{
    if i > 0 {
        assert(s.drop_first()[i - 1] == s[i]);
        assert forall|j: int| 0 <= j < i - 1 implies s.drop_first()[j] != needle by {
            assert(s.drop_first()[j] == s[j + 1]);
        }
        lemma_first_char_at_scan(s.drop_first(), needle, i - 1);
    }
}

proof fn lemma_first_char_at_none(s: Seq<char>, needle: char)
    requires
        forall|j: int| 0 <= j < s.len() ==> s[j] != needle,
    ensures
        first_char_at(s, needle) < 0,
    decreases s.len(),
{
    if s.len() > 0 {
        assert forall|j: int| 0 <= j < s.drop_first().len() implies s.drop_first()[j]
            != needle by {
            assert(s.drop_first()[j] == s[j + 1]);
        }
        lemma_first_char_at_none(s.drop_first(), needle);
    }
}

/// One parameter parsed from its verbatim text: the part before the first
/// colon is the name, the part after is the type; without a colon (a bare
/// receiver) the whole trimmed text is the name and the type is empty.
pub open spec fn param_of_piece(p: Seq<char>) -> ParameterView {
    let t = trim_spaces(p);
    let c = first_char_at(t, ':');
    if c < 0 {
        ParameterView { name: t, param_type: Seq::empty() }
    } else {
        ParameterView {
            name: trim_spaces(t.subrange(0, c)),
            param_type: trim_spaces(t.subrange(c + 1, t.len() as int)),
        }
    }
}

/// The parameters parsed from the verbatim parameter-list text, outer
/// parentheses included; pieces that trim to nothing are dropped.
pub open spec fn params_of_text(s: Seq<char>) -> Seq<ParameterView> {
    let inner = strip_outer(s, '(', ')');
    nonempty_params(split_top(inner, 0, 0, 0))
}

/// `s` without one leading `open` and one trailing `close`, when both are
/// present.
pub open spec fn strip_outer(s: Seq<char>, open_c: char, close_c: char) -> Seq<char> {
    if s.len() >= 2 && s[0] == open_c && s.last() == close_c {
        s.subrange(1, s.len() - 1)
    } else {
        s
    }
}

/// The pieces that survive trimming, parsed as parameters.
pub open spec fn nonempty_params(pieces: Seq<Seq<char>>) -> Seq<ParameterView>
    decreases pieces.len(),
{
    if pieces.len() == 0 {
        Seq::empty()
    } else {
        nonempty_params(pieces.drop_last()) + if trim_spaces(pieces.last()).len() > 0 {
            seq![param_of_piece(pieces.last())]
        } else {
            Seq::empty()
        }
    }
}

fn strip_outer_str(s: &str, open_c: char, close_c: char) -> (r: String)
    ensures
        r@ == strip_outer(s@, open_c, close_c),
{
    let n = s.unicode_len();
    if n >= 2 && s.get_char(0) == open_c && s.get_char(n - 1) == close_c {
        let r = s.substring_char(1, n - 1).to_owned();
        proof {
            assert(r@ =~= s@.subrange(1, s@.len() - 1));
        }
        r
    } else {
        s.to_owned()
    }
}

fn parse_param(piece: &str) -> (r: Parameter)
    ensures
        r@ == param_of_piece(piece@),
{
    let t = trim_str(piece);
    match find_char(t.as_str(), ':') {
        Some(c) => {
            let tn = t.as_str().unicode_len();
            let name = trim_str(t.as_str().substring_char(0, c));
            let ty = trim_str(t.as_str().substring_char(c + 1, tn));
            proof {
                assert(trim_spaces(piece@).subrange(0, c as int) =~= t@.subrange(0, c as int));
                assert(trim_spaces(piece@).subrange(c + 1, trim_spaces(piece@).len() as int)
                    =~= t@.subrange(c + 1, t@.len() as int));
            }
            Parameter::new(name, ty)
        },
        None => {
            let name = t;
            let r = Parameter::new(name, String::new());
            proof {
                assert(r@ =~= param_of_piece(piece@));
            }
            r
        },
    }
}

/// Parses a verbatim parameter-list text into parameters.
pub fn parse_parameters(params_text: &str) -> (r: Vec<Parameter>)
    ensures
        params_view(r@) == params_of_text(params_text@),
{
    let inner = strip_outer_str(params_text, '(', ')');
    let pieces = split_top_str(inner.as_str(), 0, 0, 0);
    let ghost pview = crate::repo_map::strings_view(pieces@);
    let mut r: Vec<Parameter> = Vec::new();
    let mut i: usize = 0;
    while i < pieces.len()
        invariant
            i <= pieces.len(),
            pview == crate::repo_map::strings_view(pieces@),
            pview.len() == pieces@.len(),
            params_view(r@) == nonempty_params(pview.subrange(0, i as int)),
        decreases pieces.len() - i,
    {
        let ghost pre = params_view(r@);
        proof {
            assert(pview.subrange(0, i + 1).drop_last() =~= pview.subrange(0, i as int));
            assert(pview.subrange(0, i + 1).last() == pview[i as int]);
            assert(pieces@[i as int]@ == pview[i as int]);
        }
        let t = trim_str(pieces[i].as_str());
        if t.as_str().unicode_len() > 0 {
            r.push(parse_param(pieces[i].as_str()));
            proof {
                assert(params_view(r@) =~= pre + seq![param_of_piece(pview[i as int])]);
            }
        }
        proof {
            assert(params_view(r@) =~= nonempty_params(pview.subrange(0, i + 1)));
        }
        i = i + 1;
    }
    proof {
        assert(pview.subrange(0, pview.len() as int) =~= pview);
    }
    r
}

} // verus!

verus! {

/// The position of the last `needle` character in `s`, or -1.
pub open spec fn last_char_at(s: Seq<char>, needle: char) -> int
    decreases s.len(),
{
    if s.len() == 0 {
        -1
    } else if s.last() == needle {
        s.len() - 1
    } else {
        last_char_at(s.drop_last(), needle)
    }
}

/// The text after the last occurrence of `needle`, or all of `s`.
pub open spec fn after_last(s: Seq<char>, needle: char) -> Seq<char> {
    let i = last_char_at(s, needle);
    if i < 0 {
        s
    } else {
        s.subrange(i + 1, s.len() as int)
    }
}

/// The rightmost segment of a (possibly qualified) callee: the text after
/// the last path separator and the last dot.
pub open spec fn rightmost_segment(s: Seq<char>) -> Seq<char> {
    after_last(after_last(s, ':'), '.')
}

pub(crate) fn find_last_char(s: &str, needle: char) -> (r: Option<usize>)
    ensures
        match r {
            Some(i) => last_char_at(s@, needle) == i as int && i < s@.len(),
            None => last_char_at(s@, needle) < 0,
        },
{
    let n = s.unicode_len();
    let mut i: usize = n;
    while i > 0
        invariant
            n == s@.len(),
            i <= n,
            forall|j: int| i <= j < n ==> s@[j] != needle,
        decreases i,
    {
        i = i - 1;
        if s.get_char(i) == needle {
            proof {
                lemma_last_char_at_scan(s@, needle, i as int);
            }
            return Some(i);
        }
    }
    proof {
        lemma_last_char_at_none(s@, needle);
    }
    None
}

proof fn lemma_last_char_at_scan(s: Seq<char>, needle: char, i: int)
    requires
        0 <= i < s.len(),
        s[i] == needle,
        forall|j: int| i < j < s.len() ==> s[j] != needle,
    ensures
        last_char_at(s, needle) == i,
    decreases s.len(),
{
    if i < s.len() - 1 {
        assert(s.last() != needle);
        assert(s.drop_last()[i] == s[i]);
        assert forall|j: int| i < j < s.drop_last().len() implies s.drop_last()[j] != needle by {
            assert(s.drop_last()[j] == s[j]);
        }
        lemma_last_char_at_scan(s.drop_last(), needle, i);
    }
}

proof fn lemma_last_char_at_none(s: Seq<char>, needle: char)
    requires
        forall|j: int| 0 <= j < s.len() ==> s[j] != needle,
    ensures
        last_char_at(s, needle) < 0,
    decreases s.len(),
{
    if s.len() > 0 {
        assert forall|j: int| 0 <= j < s.drop_last().len() implies s.drop_last()[j] != needle by {
            assert(s.drop_last()[j] == s[j]);
        }
        lemma_last_char_at_none(s.drop_last(), needle);
    }
}

fn after_last_str(s: &str, needle: char) -> (r: String)
    ensures
        r@ == after_last(s@, needle),
{
    let n = s.unicode_len();
    match find_last_char(s, needle) {
        Some(i) => {
            let r = s.substring_char(i + 1, n).to_owned();
            proof {
                assert(r@ =~= after_last(s@, needle));
            }
            r
        },
        None => s.to_owned(),
    }
}

fn rightmost_segment_str(s: &str) -> (r: String)
    ensures
        r@ == rightmost_segment(s@),
{
    let a = after_last_str(s, ':');
    after_last_str(a.as_str(), '.')
}

/// A function signature parsed from one query match, when the match has a
/// non-empty name.
pub open spec fn function_of_group(g: Seq<CaptureView>) -> Option<FunctionSignatureView> {
    match first_capture(g, "name"@) {
        None => None,
        Some(nc) => {
            if nc.text.len() == 0 {
                None
            } else {
                let (row, end_row) = match first_capture(g, "func"@) {
                    Some(f) => (f.row, f.end_row),
                    None => (nc.row, nc.end_row),
                };
                Some(
                    FunctionSignatureView {
                        name: nc.text,
                        parameters: match first_capture(g, "params"@) {
                            Some(p) => params_of_text(p.text),
                            None => Seq::empty(),
                        },
                        return_type: match first_capture(g, "return_type"@) {
                            Some(rt) => Some(trim_spaces(rt.text)),
                            None => None,
                        },
                        is_public: first_capture(g, "visibility"@) is Some,
                        is_async: match first_capture(g, "modifiers"@) {
                            Some(m) => contains_sub(m.text, "async"@),
                            None => false,
                        },
                        start_line: one_based(row),
                        end_line: one_based(end_row),
                    },
                )
            }
        },
    }
}

/// The functions of all matches, in match order.
pub open spec fn functions_of_groups(gs: Seq<Seq<CaptureView>>) -> Seq<FunctionSignatureView>
    decreases gs.len(),
{
    if gs.len() == 0 {
        Seq::empty()
    } else {
        functions_of_groups(gs.drop_last()) + match function_of_group(gs.last()) {
            Some(f) => seq![f],
            None => Seq::empty(),
        }
    }
}

fn function_from_group(g: &CaptureGroup) -> (r: Option<FunctionSignature>)
    ensures
        match r {
            Some(f) => function_of_group(group_view(g)) == Some(f@),
            None => function_of_group(group_view(g)) is None,
        },
{
    let nc = match find_capture(g, "name") {
        Some(nc) => nc,
        None => {
            return None;
        },
    };
    if nc.text.as_str().unicode_len() == 0 {
        return None;
    }
    let (row, end_row) = match find_capture(g, "func") {
        Some(f) => (f.row, f.end_row),
        None => (nc.row, nc.end_row),
    };
    let parameters = match find_capture(g, "params") {
        Some(p) => parse_parameters(p.text.as_str()),
        None => Vec::new(),
    };
    let return_type = match find_capture(g, "return_type") {
        Some(rt) => Some(trim_str(rt.text.as_str())),
        None => None,
    };
    let is_public = match find_capture(g, "visibility") {
        Some(_) => true,
        None => false,
    };
    let is_async = match find_capture(g, "modifiers") {
        Some(m) => str_contains(m.text.as_str(), "async"),
        None => false,
    };
    let f = FunctionSignature {
        name: nc.text.clone(),
        parameters,
        return_type,
        is_public,
        is_async,
        start_line: to_one_based(row),
        end_line: to_one_based(end_row),
    };
    proof {
        assert(params_view(f.parameters@) =~= function_of_group(group_view(g))->Some_0.parameters);
        assert(f@ =~= function_of_group(group_view(g))->Some_0);
    }
    Some(f)
}

/// Extracts every function of the query matches, in match order.
pub fn extract_functions(groups: &Vec<CaptureGroup>) -> (r: Vec<FunctionSignature>)
    ensures
        fns_view(r@) == functions_of_groups(groups_view(groups@)),
{
    let ghost gsv = groups_view(groups@);
    let mut r: Vec<FunctionSignature> = Vec::new();
    let mut i: usize = 0;
    while i < groups.len()
        invariant
            i <= groups.len(),
            gsv == groups_view(groups@),
            gsv.len() == groups@.len(),
            fns_view(r@) == functions_of_groups(gsv.subrange(0, i as int)),
        decreases groups.len() - i,
    {
        let ghost pre = fns_view(r@);
        proof {
            assert(gsv.subrange(0, i + 1).drop_last() =~= gsv.subrange(0, i as int));
            assert(gsv.subrange(0, i + 1).last() == gsv[i as int]);
            assert(gsv[i as int] == group_view(&groups@[i as int]));
        }
        match function_from_group(&groups[i]) {
            Some(f) => {
                r.push(f);
                proof {
                    assert(fns_view(r@) =~= pre + seq![
                        function_of_group(gsv[i as int])->Some_0,
                    ]);
                }
            },
            None => {},
        }
        proof {
            assert(fns_view(r@) =~= functions_of_groups(gsv.subrange(0, i + 1)));
        }
        i = i + 1;
    }
    proof {
        assert(gsv.subrange(0, gsv.len() as int) =~= gsv);
    }
    r
}

} // verus!

verus! {

/// Whether a trimmed field piece carries a visibility modifier.
pub open spec fn piece_is_public(t: Seq<char>) -> bool {
    is_prefix_of("pub "@, t) || is_prefix_of("pub("@, t)
}

/// The piece with a leading visibility modifier removed.
pub open spec fn strip_visibility(t: Seq<char>) -> Seq<char> {
    if is_prefix_of("pub("@, t) {
        let c = first_char_at(t, ')');
        if c < 0 {
            t
        } else {
            t.subrange(c + 1, t.len() as int)
        }
    } else if is_prefix_of("pub "@, t) {
        t.subrange(4, t.len() as int)
    } else {
        t
    }
}

/// A struct field parsed from its verbatim text, when it holds a colon.
pub open spec fn field_of_piece(p: Seq<char>) -> Option<StructFieldView> {
    let t = trim_spaces(p);
    let is_public = piece_is_public(t);
    let rest = trim_spaces(strip_visibility(t));
    let c = first_char_at(rest, ':');
    if c < 0 {
        None
    } else {
        Some(
            StructFieldView {
                name: trim_spaces(rest.subrange(0, c)),
                field_type: trim_spaces(rest.subrange(c + 1, rest.len() as int)),
                is_public,
            },
        )
    }
}

/// The fields parsed from a verbatim field-list text, outer braces
/// included.
pub open spec fn fields_of_text(s: Seq<char>) -> Seq<StructFieldView> {
    let inner = strip_outer(trim_spaces(s), '{', '}');
    fields_of_pieces(split_top(inner, 0, 0, 0))
}

/// The pieces that parse as fields.
pub open spec fn fields_of_pieces(pieces: Seq<Seq<char>>) -> Seq<StructFieldView>
    decreases pieces.len(),
{
    if pieces.len() == 0 {
        Seq::empty()
    } else {
        fields_of_pieces(pieces.drop_last()) + match field_of_piece(pieces.last()) {
            Some(f) => seq![f],
            None => Seq::empty(),
        }
    }
}

fn parse_field(piece: &str) -> (r: Option<StructField>)
    ensures
        match r {
            Some(f) => field_of_piece(piece@) == Some(f@),
            None => field_of_piece(piece@) is None,
        },
{
    proof {
        reveal_strlit("pub ");
        reveal_strlit("pub(");
    }
    let t = trim_str(piece);
    let is_public = str_starts_with(t.as_str(), "pub ") || str_starts_with(t.as_str(), "pub(");
    let stripped = if str_starts_with(t.as_str(), "pub(") {
        match find_char(t.as_str(), ')') {
            Some(c) => {
                let n = t.as_str().unicode_len();
                let r = t.as_str().substring_char(c + 1, n).to_owned();
                proof {
                    assert(r@ =~= strip_visibility(t@));
                }
                r
            },
            None => t,
        }
    } else if str_starts_with(t.as_str(), "pub ") {
        let n = t.as_str().unicode_len();
        let r = t.as_str().substring_char(4, n).to_owned();
        proof {
            assert(r@ =~= strip_visibility(t@));
        }
        r
    } else {
        t
    };
    let rest = trim_str(stripped.as_str());
    match find_char(rest.as_str(), ':') {
        Some(c) => {
            let n = rest.as_str().unicode_len();
            let name = trim_str(rest.as_str().substring_char(0, c));
            let ty = trim_str(rest.as_str().substring_char(c + 1, n));
            let f = StructField::new(name, ty, is_public);
            proof {
                assert(field_of_piece(piece@)->Some_0 =~= f@);
            }
            Some(f)
        },
        None => None,
    }
}

/// Parses a verbatim field-list text into struct fields.
pub fn parse_struct_fields(fields_text: &str) -> (r: Vec<StructField>)
    ensures
        fields_view(r@) == fields_of_text(fields_text@),
{
    let trimmed = trim_str(fields_text);
    let inner = strip_outer_str(trimmed.as_str(), '{', '}');
    let pieces = split_top_str(inner.as_str(), 0, 0, 0);
    let ghost pview = crate::repo_map::strings_view(pieces@);
    let mut r: Vec<StructField> = Vec::new();
    let mut i: usize = 0;
    while i < pieces.len()
        invariant
            i <= pieces.len(),
            pview == crate::repo_map::strings_view(pieces@),
            pview.len() == pieces@.len(),
            fields_view(r@) == fields_of_pieces(pview.subrange(0, i as int)),
        decreases pieces.len() - i,
    {
        let ghost pre = fields_view(r@);
        proof {
            assert(pview.subrange(0, i + 1).drop_last() =~= pview.subrange(0, i as int));
            assert(pview.subrange(0, i + 1).last() == pview[i as int]);
            assert(pieces@[i as int]@ == pview[i as int]);
        }
        match parse_field(pieces[i].as_str()) {
            Some(f) => {
                r.push(f);
                proof {
                    assert(fields_view(r@) =~= pre + seq![
                        field_of_piece(pview[i as int])->Some_0,
                    ]);
                }
            },
            None => {},
        }
        proof {
            assert(fields_view(r@) =~= fields_of_pieces(pview.subrange(0, i + 1)));
        }
        i = i + 1;
    }
    proof {
        assert(pview.subrange(0, pview.len() as int) =~= pview);
    }
    r
}

/// A struct signature parsed from one query match.
pub open spec fn struct_of_group(g: Seq<CaptureView>) -> Option<StructSignatureView> {
    match first_capture(g, "name"@) {
        None => None,
        Some(nc) => {
            if nc.text.len() == 0 {
                None
            } else {
                let (row, end_row) = match first_capture(g, "item"@) {
                    Some(f) => (f.row, f.end_row),
                    None => (nc.row, nc.end_row),
                };
                let body = match first_capture(g, "body"@) {
                    Some(b) => b.text,
                    None => Seq::empty(),
                };
                Some(
                    StructSignatureView {
                        name: nc.text,
                        fields: fields_of_text(body),
                        is_public: first_capture(g, "visibility"@) is Some,
                        is_tuple_struct: trim_spaces(body).len() > 0 && trim_spaces(body)[0]
                            == '(',
                        start_line: one_based(row),
                        end_line: one_based(end_row),
                    },
                )
            }
        },
    }
}

/// The structs of all matches, in match order.
pub open spec fn structs_of_groups(gs: Seq<Seq<CaptureView>>) -> Seq<StructSignatureView>
    decreases gs.len(),
{
    if gs.len() == 0 {
        Seq::empty()
    } else {
        structs_of_groups(gs.drop_last()) + match struct_of_group(gs.last()) {
            Some(f) => seq![f],
            None => Seq::empty(),
        }
    }
}

fn struct_from_group(g: &CaptureGroup) -> (r: Option<StructSignature>)
    ensures
        match r {
            Some(f) => struct_of_group(group_view(g)) == Some(f@),
            None => struct_of_group(group_view(g)) is None,
        },
{
    let nc = match find_capture(g, "name") {
        Some(nc) => nc,
        None => {
            return None;
        },
    };
    if nc.text.as_str().unicode_len() == 0 {
        return None;
    }
    let (row, end_row) = match find_capture(g, "item") {
        Some(f) => (f.row, f.end_row),
        None => (nc.row, nc.end_row),
    };
    let body = match find_capture(g, "body") {
        Some(b) => b.text.clone(),
        None => String::new(),
    };
    let fields = parse_struct_fields(body.as_str());
    let bt = trim_str(body.as_str());
    let is_tuple_struct = bt.as_str().unicode_len() > 0 && bt.as_str().get_char(0) == '(';
    let is_public = match find_capture(g, "visibility") {
        Some(_) => true,
        None => false,
    };
    let s = StructSignature {
        name: nc.text.clone(),
        fields,
        is_public,
        is_tuple_struct,
        start_line: to_one_based(row),
        end_line: to_one_based(end_row),
    };
    proof {
        assert(fields_view(s.fields@) =~= struct_of_group(group_view(g))->Some_0.fields);
        assert(s@ =~= struct_of_group(group_view(g))->Some_0);
    }
    Some(s)
}

/// Extracts every struct of the query matches, in match order.
pub fn extract_structs(groups: &Vec<CaptureGroup>) -> (r: Vec<StructSignature>)
    ensures
        structs_view(r@) == structs_of_groups(groups_view(groups@)),
{
    let ghost gsv = groups_view(groups@);
    let mut r: Vec<StructSignature> = Vec::new();
    let mut i: usize = 0;
    while i < groups.len()
        invariant
            i <= groups.len(),
            gsv == groups_view(groups@),
            gsv.len() == groups@.len(),
            structs_view(r@) == structs_of_groups(gsv.subrange(0, i as int)),
        decreases groups.len() - i,
    {
        let ghost pre = structs_view(r@);
        proof {
            assert(gsv.subrange(0, i + 1).drop_last() =~= gsv.subrange(0, i as int));
            assert(gsv.subrange(0, i + 1).last() == gsv[i as int]);
            assert(gsv[i as int] == group_view(&groups@[i as int]));
        }
        match struct_from_group(&groups[i]) {
            Some(f) => {
                r.push(f);
                proof {
                    assert(structs_view(r@) =~= pre + seq![
                        struct_of_group(gsv[i as int])->Some_0,
                    ]);
                }
            },
            None => {},
        }
        proof {
            assert(structs_view(r@) =~= structs_of_groups(gsv.subrange(0, i + 1)));
        }
        i = i + 1;
    }
    proof {
        assert(gsv.subrange(0, gsv.len() as int) =~= gsv);
    }
    r
}

/// The first path segment: the text before the first path separator.
pub open spec fn first_segment(s: Seq<char>) -> Seq<char> {
    let c = first_char_at(s, ':');
    if c < 0 {
        s
    } else {
        s.subrange(0, c)
    }
}

/// An import is external when its first segment does not name the crate
/// itself.
pub open spec fn segment_is_external(seg: Seq<char>) -> bool {
    seg != "crate"@ && seg != "self"@ && seg != "super"@
}

/// An import parsed from one query match.
pub open spec fn import_of_group(g: Seq<CaptureView>) -> Option<ImportStatementView> {
    match first_capture(g, "path"@) {
        None => None,
        Some(pc) => {
            if pc.text.len() == 0 {
                None
            } else {
                Some(
                    ImportStatementView {
                        import_path: pc.text,
                        line_number: one_based(pc.row),
                        is_external: segment_is_external(first_segment(pc.text)),
                    },
                )
            }
        },
    }
}

/// The imports of all matches, in match order.
pub open spec fn imports_of_groups(gs: Seq<Seq<CaptureView>>) -> Seq<ImportStatementView>
    decreases gs.len(),
{
    if gs.len() == 0 {
        Seq::empty()
    } else {
        imports_of_groups(gs.drop_last()) + match import_of_group(gs.last()) {
            Some(f) => seq![f],
            None => Seq::empty(),
        }
    }
}

fn import_from_group(g: &CaptureGroup) -> (r: Option<ImportStatement>)
    ensures
        match r {
            Some(f) => import_of_group(group_view(g)) == Some(f@),
            None => import_of_group(group_view(g)) is None,
        },
{
    let pc = match find_capture(g, "path") {
        Some(pc) => pc,
        None => {
            return None;
        },
    };
    let n = pc.text.as_str().unicode_len();
    if n == 0 {
        return None;
    }
    let seg = match find_char(pc.text.as_str(), ':') {
        Some(c) => pc.text.as_str().substring_char(0, c).to_owned(),
        None => pc.text.clone(),
    };
    proof {
        assert(seg@ =~= first_segment(pc.text@));
    }
    let is_external = !(str_eq(seg.as_str(), "crate") || str_eq(seg.as_str(), "self") || str_eq(
        seg.as_str(),
        "super",
    ));
    let imp = ImportStatement {
        import_path: pc.text.clone(),
        line_number: to_one_based(pc.row),
        is_external,
    };
    proof {
        assert(imp@ =~= import_of_group(group_view(g))->Some_0);
    }
    Some(imp)
}

/// Extracts every import of the query matches, in match order.
pub fn extract_imports(groups: &Vec<CaptureGroup>) -> (r: Vec<ImportStatement>)
    ensures
        imports_view(r@) == imports_of_groups(groups_view(groups@)),
{
    let ghost gsv = groups_view(groups@);
    let mut r: Vec<ImportStatement> = Vec::new();
    let mut i: usize = 0;
    while i < groups.len()
        invariant
            i <= groups.len(),
            gsv == groups_view(groups@),
            gsv.len() == groups@.len(),
            imports_view(r@) == imports_of_groups(gsv.subrange(0, i as int)),
        decreases groups.len() - i,
    {
        let ghost pre = imports_view(r@);
        proof {
            assert(gsv.subrange(0, i + 1).drop_last() =~= gsv.subrange(0, i as int));
            assert(gsv.subrange(0, i + 1).last() == gsv[i as int]);
            assert(gsv[i as int] == group_view(&groups@[i as int]));
        }
        match import_from_group(&groups[i]) {
            Some(f) => {
                r.push(f);
                proof {
                    assert(imports_view(r@) =~= pre + seq![
                        import_of_group(gsv[i as int])->Some_0,
                    ]);
                }
            },
            None => {},
        }
        proof {
            assert(imports_view(r@) =~= imports_of_groups(gsv.subrange(0, i + 1)));
        }
        i = i + 1;
    }
    proof {
        assert(gsv.subrange(0, gsv.len() as int) =~= gsv);
    }
    r
}

/// An export parsed from one query match.
pub open spec fn export_of_group(g: Seq<CaptureView>) -> Option<ExportStatementView> {
    match first_capture(g, "name"@) {
        None => None,
        Some(nc) => {
            if nc.text.len() == 0 {
                None
            } else {
                Some(
                    ExportStatementView {
                        exported_item: nc.text,
                        line_number: one_based(nc.row),
                    },
                )
            }
        },
    }
}

/// The exports of all matches, in match order.
pub open spec fn exports_of_groups(gs: Seq<Seq<CaptureView>>) -> Seq<ExportStatementView>
    decreases gs.len(),
{
    if gs.len() == 0 {
        Seq::empty()
    } else {
        exports_of_groups(gs.drop_last()) + match export_of_group(gs.last()) {
            Some(f) => seq![f],
            None => Seq::empty(),
        }
    }
}

/// Extracts every exported item of the query matches, in match order.
pub fn extract_exports(groups: &Vec<CaptureGroup>) -> (r: Vec<ExportStatement>)
    ensures
        exports_view(r@) == exports_of_groups(groups_view(groups@)),
{
    let ghost gsv = groups_view(groups@);
    let mut r: Vec<ExportStatement> = Vec::new();
    let mut i: usize = 0;
    while i < groups.len()
        invariant
            i <= groups.len(),
            gsv == groups_view(groups@),
            gsv.len() == groups@.len(),
            exports_view(r@) == exports_of_groups(gsv.subrange(0, i as int)),
        decreases groups.len() - i,
    {
        let ghost pre = exports_view(r@);
        proof {
            assert(gsv.subrange(0, i + 1).drop_last() =~= gsv.subrange(0, i as int));
            assert(gsv.subrange(0, i + 1).last() == gsv[i as int]);
            assert(gsv[i as int] == group_view(&groups@[i as int]));
        }
        match find_capture(&groups[i], "name") {
            Some(nc) => {
                if nc.text.as_str().unicode_len() > 0 {
                    let e = ExportStatement {
                        exported_item: nc.text.clone(),
                        line_number: to_one_based(nc.row),
                    };
                    proof {
                        assert(e@ =~= export_of_group(gsv[i as int])->Some_0);
                    }
                    r.push(e);
                    proof {
                        assert(exports_view(r@) =~= pre + seq![
                            export_of_group(gsv[i as int])->Some_0,
                        ]);
                    }
                }
            },
            None => {},
        }
        proof {
            assert(exports_view(r@) =~= exports_of_groups(gsv.subrange(0, i + 1)));
        }
        i = i + 1;
    }
    proof {
        assert(gsv.subrange(0, gsv.len() as int) =~= gsv);
    }
    r
}

/// The name of the innermost function whose line range holds `line`: among
/// the containing functions, the one starting last, the earlier on ties.
pub open spec fn caller_of(fns: Seq<FunctionSignatureView>, line: u32) -> Option<Seq<char>>
    decreases fns.len(),
{
    if fns.len() == 0 {
        None
    } else {
        let rest = caller_of(fns.drop_first(), line);
        let c0 = fns[0];
        if !(c0.start_line <= line && line <= c0.end_line) {
            rest
        } else {
            match rest {
                None => Some(c0.name),
                Some(_) => {
                    match best_caller(fns.drop_first(), line) {
                        Some(b) => if b.start_line > c0.start_line {
                            Some(b.name)
                        } else {
                            Some(c0.name)
                        },
                        None => Some(c0.name),
                    }
                },
            }
        }
    }
}

/// The innermost containing function itself.
pub open spec fn best_caller(fns: Seq<FunctionSignatureView>, line: u32) -> Option<
    FunctionSignatureView,
>
    decreases fns.len(),
{
    if fns.len() == 0 {
        None
    } else {
        let rest = best_caller(fns.drop_first(), line);
        let c0 = fns[0];
        if !(c0.start_line <= line && line <= c0.end_line) {
            rest
        } else {
            match rest {
                None => Some(c0),
                Some(b) => if b.start_line > c0.start_line {
                    Some(b)
                } else {
                    Some(c0)
                },
            }
        }
    }
}

fn resolve_caller(fns: &Vec<FunctionSignature>, line: u32) -> (r: Option<String>)
    ensures
        match r {
            Some(n) => best_caller(fns_view(fns@), line) matches Some(b) && b.name == n@,
            None => best_caller(fns_view(fns@), line) is None,
        },
{
    let ghost fv = fns_view(fns@);
    let mut best: Option<usize> = None;
    let mut i: usize = 0;
    while i < fns.len()
        invariant
            i <= fns.len(),
            fv == fns_view(fns@),
            fv.len() == fns@.len(),
            match best {
                Some(b) => b < i && best_caller(fv.subrange(0, i as int), line) == Some(
                    fv[b as int],
                ),
                None => best_caller(fv.subrange(0, i as int), line) is None,
            },
        decreases fns.len() - i,
    {
        proof {
            assert(fv[i as int] == fns@[i as int]@);
            lemma_best_caller_extend(fv, line, i as int);
        }
        let f = &fns[i];
        if f.start_line <= line && line <= f.end_line {
            match best {
                Some(b) => {
                    if f.start_line > fns[b].start_line {
                        best = Some(i);
                    }
                },
                None => {
                    best = Some(i);
                },
            }
        }
        i = i + 1;
    }
    proof {
        assert(fv.subrange(0, fv.len() as int) =~= fv);
    }
    match best {
        Some(b) => Some(fns[b].name.clone()),
        None => None,
    }
}

proof fn lemma_best_caller_extend(fns: Seq<FunctionSignatureView>, line: u32, i: int)
    requires
        0 <= i < fns.len(),
    ensures
        best_caller(fns.subrange(0, i + 1), line) == ({
            let prev = best_caller(fns.subrange(0, i), line);
            let c = fns[i];
            if !(c.start_line <= line && line <= c.end_line) {
                prev
            } else {
                match prev {
                    None => Some(c),
                    Some(b) => if c.start_line > b.start_line {
                        Some(c)
                    } else {
                        Some(b)
                    },
                }
            }
        }),
    decreases i,
{
    if i == 0 {
        assert(fns.subrange(0, 1).drop_first() =~= fns.subrange(0, 0));
        assert(fns.subrange(0, 1)[0] == fns[0]);
    } else {
        assert(fns.subrange(0, i + 1).drop_first() =~= fns.subrange(1, i + 1));
        assert(fns.subrange(0, i).drop_first() =~= fns.subrange(1, i));
        assert(fns.subrange(1, i + 1) =~= fns.subrange(1, fns.len() as int).subrange(0, i));
        assert(fns.subrange(1, i) =~= fns.subrange(1, fns.len() as int).subrange(0, i - 1));
        lemma_best_caller_extend(fns.subrange(1, fns.len() as int), line, i - 1);
        assert(fns.subrange(1, fns.len() as int)[i - 1] == fns[i]);
        assert(fns.subrange(0, i + 1)[0] == fns[0]);
        assert(fns.subrange(0, i)[0] == fns[0]);
    }
}

} // verus!

verus! {

/// A call parsed from one query match: the callee's rightmost segment, its
/// 1-based position, and the innermost enclosing function among `fns`.
pub open spec fn call_of_group(
    g: Seq<CaptureView>,
    file_path: Seq<char>,
    fns: Seq<FunctionSignatureView>,
) -> Option<FunctionCallView> {
    match first_capture(g, "callee"@) {
        None => None,
        Some(cc) => {
            let name = rightmost_segment(cc.text);
            if name.len() == 0 {
                None
            } else {
                Some(
                    FunctionCallView {
                        function_name: name,
                        file_path: file_path,
                        line_number: one_based(cc.row),
                        column: one_based(cc.col),
                        caller_function: match best_caller(fns, one_based(cc.row)) {
                            Some(b) => Some(b.name),
                            None => None,
                        },
                    },
                )
            }
        },
    }
}

/// The calls of all matches, in match order.
pub open spec fn calls_of_groups(
    gs: Seq<Seq<CaptureView>>,
    file_path: Seq<char>,
    fns: Seq<FunctionSignatureView>,
) -> Seq<FunctionCallView>
    decreases gs.len(),
{
    if gs.len() == 0 {
        Seq::empty()
    } else {
        calls_of_groups(gs.drop_last(), file_path, fns) + match call_of_group(
            gs.last(),
            file_path,
            fns,
        ) {
            Some(f) => seq![f],
            None => Seq::empty(),
        }
    }
}

/// Extracts every call of the query matches, resolving each call's
/// enclosing function against `fns`.
pub fn extract_calls(
    groups: &Vec<CaptureGroup>,
    file_path: &str,
    fns: &Vec<FunctionSignature>,
) -> (r: Vec<FunctionCall>)
    ensures
        calls_view(r@) == calls_of_groups(groups_view(groups@), file_path@, fns_view(fns@)),
{
    let ghost gsv = groups_view(groups@);
    let ghost fv = fns_view(fns@);
    let mut r: Vec<FunctionCall> = Vec::new();
    let mut i: usize = 0;
    while i < groups.len()
        invariant
            i <= groups.len(),
            gsv == groups_view(groups@),
            fv == fns_view(fns@),
            gsv.len() == groups@.len(),
            calls_view(r@) == calls_of_groups(gsv.subrange(0, i as int), file_path@, fv),
        decreases groups.len() - i,
    {
        let ghost pre = calls_view(r@);
        proof {
            assert(gsv.subrange(0, i + 1).drop_last() =~= gsv.subrange(0, i as int));
            assert(gsv.subrange(0, i + 1).last() == gsv[i as int]);
            assert(gsv[i as int] == group_view(&groups@[i as int]));
        }
        match find_capture(&groups[i], "callee") {
            Some(cc) => {
                let name = rightmost_segment_str(cc.text.as_str());
                if name.as_str().unicode_len() > 0 {
                    let line = to_one_based(cc.row);
                    let caller_function = resolve_caller(fns, line);
                    let call = FunctionCall {
                        function_name: name,
                        file_path: file_path.to_owned(),
                        line_number: line,
                        column: to_one_based(cc.col),
                        caller_function,
                    };
                    proof {
                        assert(call@ =~= call_of_group(gsv[i as int], file_path@, fv)->Some_0);
                    }
                    r.push(call);
                    proof {
                        assert(calls_view(r@) =~= pre + seq![
                            call_of_group(gsv[i as int], file_path@, fv)->Some_0,
                        ]);
                    }
                }
            },
            None => {},
        }
        proof {
            assert(calls_view(r@) =~= calls_of_groups(gsv.subrange(0, i + 1), file_path@, fv));
        }
        i = i + 1;
    }
    proof {
        assert(gsv.subrange(0, gsv.len() as int) =~= gsv);
    }
    r
}

/// The 64-bit FNV-1a-style digest of the characters of `s`, folded from
/// position `i` with accumulator `acc`.
pub open spec fn digest_from(s: Seq<char>, i: int, acc: u64) -> u64
    decreases s.len() - i,
{
    if i < 0 || i >= s.len() {
        acc
    } else {
        digest_from(s, i + 1, (((acc ^ (s[i] as u64)) * 0x100000001b3) % 0x10000000000000000) as u64)
    }
}

/// The digest of a whole text.
pub open spec fn digest_of(s: Seq<char>) -> u64 {
    digest_from(s, 0, 0xcbf29ce484222325)
}

/// Computes the content digest of `s`.
pub fn content_digest(s: &str) -> (r: u64)
    ensures
        r == digest_of(s@),
{
    let n = s.unicode_len();
    let mut acc: u64 = 0xcbf29ce484222325;
    let mut i: usize = 0;
    while i < n
        invariant
            n == s@.len(),
            i <= n,
            digest_from(s@, i as int, acc) == digest_of(s@),
        decreases n - i,
    {
        let c = s.get_char(i);
        let x: u64 = acc ^ (c as u64);
        let prod: u128 = (x as u128) * 0x100000001b3u128;
        let next: u64 = (prod % 0x10000000000000000u128) as u64;
        acc = next;
        i = i + 1;
    }
    acc
}

/// An analyzer failure: a language this analyzer does not handle, or a
/// grammar that failed to parse or query the source.
#[derive(Debug)]
pub enum AnalyzerError {
    UnsupportedLanguage(String),
    ParseFailure(String),
}

/// The grammar query for function items.
pub open spec fn functions_query() -> Seq<char> {
    "(function_item (visibility_modifier)? @visibility (function_modifiers)? @modifiers name: (identifier) @name parameters: (parameters) @params return_type: (_)? @return_type) @func"@
}

/// The grammar query for struct items.
pub open spec fn structs_query() -> Seq<char> {
    "(struct_item (visibility_modifier)? @visibility name: (type_identifier) @name body: (_)? @body) @item"@
}

/// The grammar query for use declarations.
pub open spec fn imports_query() -> Seq<char> {
    "(use_declaration argument: (_) @path) @use"@
}

/// The grammar query for publicly visible items.
pub open spec fn exports_query() -> Seq<char> {
    "[(function_item (visibility_modifier) @vis name: (identifier) @name) (struct_item (visibility_modifier) @vis name: (type_identifier) @name) (enum_item (visibility_modifier) @vis name: (type_identifier) @name)] @item"@
}

/// The grammar query for call expressions.
pub open spec fn calls_query() -> Seq<char> {
    "(call_expression function: (_) @callee) @call"@
}

/// All five grammar queries succeed on `source`.
pub open spec fn rust_source_parses(source: Seq<char>) -> bool {
    &&& rust_matches_of(source, functions_query()) is Some
    &&& rust_matches_of(source, structs_query()) is Some
    &&& rust_matches_of(source, imports_query()) is Some
    &&& rust_matches_of(source, exports_query()) is Some
    &&& rust_matches_of(source, calls_query()) is Some
}

/// The function list the analyzer yields for a Rust source text.
pub open spec fn analyzed_functions(source: Seq<char>) -> Seq<FunctionSignatureView> {
    functions_of_groups(rust_matches_of(source, functions_query())->Some_0)
}

/// The record the analyzer yields for a Rust source text at `file_path`:
/// each list is the extraction of the named query result.
pub open spec fn analyzed_node_view(source: Seq<char>, file_path: Seq<char>) -> TreeNodeView {
    TreeNodeView {
        file_path: file_path,
        language: "rust"@,
        functions: analyzed_functions(source),
        structs: structs_of_groups(rust_matches_of(source, structs_query())->Some_0),
        imports: imports_of_groups(rust_matches_of(source, imports_query())->Some_0),
        exports: exports_of_groups(rust_matches_of(source, exports_query())->Some_0),
        function_calls: calls_of_groups(
            rust_matches_of(source, calls_query())->Some_0,
            file_path,
            analyzed_functions(source),
        ),
        content_hash: u64_digits(digest_of(source)),
        last_modified: 0,
    }
}

/// Analyzes Rust source text into a file record. Only the `rust` language
/// is handled; analysis succeeds exactly when every grammar query does,
/// and the record's lists are the extractions of the named query results.
pub fn analyze(source: &str, file_path: &str, language: &str) -> (r: Result<
    TreeNode,
    AnalyzerError,
>)
    ensures
        language@ != "rust"@ ==> r matches Err(AnalyzerError::UnsupportedLanguage(_)),
        language@ == "rust"@ ==> (r is Ok <==> rust_source_parses(source@)),
        language@ == "rust"@ && r is Err ==> r matches Err(AnalyzerError::ParseFailure(_)),
        r matches Ok(node) ==> language@ == "rust"@ && node@ == analyzed_node_view(
            source@,
            file_path@,
        ),
{
    if !str_eq(language, "rust") {
        return Err(AnalyzerError::UnsupportedLanguage(language.to_owned()));
    }
    let fn_groups = match rust_query_matches(
        source,
        "(function_item (visibility_modifier)? @visibility (function_modifiers)? @modifiers name: (identifier) @name parameters: (parameters) @params return_type: (_)? @return_type) @func",
    ) {
        Some(g) => g,
        None => {
            return Err(AnalyzerError::ParseFailure("function query failed".to_owned()));
        },
    };
    let struct_groups = match rust_query_matches(
        source,
        "(struct_item (visibility_modifier)? @visibility name: (type_identifier) @name body: (_)? @body) @item",
    ) {
        Some(g) => g,
        None => {
            return Err(AnalyzerError::ParseFailure("struct query failed".to_owned()));
        },
    };
    let import_groups = match rust_query_matches(
        source,
        "(use_declaration argument: (_) @path) @use",
    ) {
        Some(g) => g,
        None => {
            return Err(AnalyzerError::ParseFailure("import query failed".to_owned()));
        },
    };
    let export_groups = match rust_query_matches(
        source,
        "[(function_item (visibility_modifier) @vis name: (identifier) @name) (struct_item (visibility_modifier) @vis name: (type_identifier) @name) (enum_item (visibility_modifier) @vis name: (type_identifier) @name)] @item",
    ) {
        Some(g) => g,
        None => {
            return Err(AnalyzerError::ParseFailure("export query failed".to_owned()));
        },
    };
    let call_groups = match rust_query_matches(
        source,
        "(call_expression function: (_) @callee) @call",
    ) {
        Some(g) => g,
        None => {
            return Err(AnalyzerError::ParseFailure("call query failed".to_owned()));
        },
    };
    let functions = extract_functions(&fn_groups);
    let structs = extract_structs(&struct_groups);
    let imports = extract_imports(&import_groups);
    let exports = extract_exports(&export_groups);
    let function_calls = extract_calls(&call_groups, file_path, &functions);
    let content_hash = u64_to_string(content_digest(source));
    let node = TreeNode {
        file_path: file_path.to_owned(),
        language: language.to_owned(),
        functions,
        structs,
        imports,
        exports,
        function_calls,
        content_hash,
        last_modified: 0,
    };
    proof {
        assert(node@ =~= analyzed_node_view(source@, file_path@));
    }
    Ok(node)
}

} // verus!
