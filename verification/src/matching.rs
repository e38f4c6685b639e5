//! The pattern-matching policy applied by every name query: exact match
//! first, then case-insensitive equality, then (for patterns holding regex
//! metacharacters) a regular-expression test, and finally case-insensitive
//! substring search.

use vstd::prelude::*;
use crate::text::{contains_sub, str_contains, str_eq};

verus! {

/// What `str::to_lowercase` returns for a string with these characters.
pub uninterp spec fn lower_of(s: Seq<char>) -> Seq<char>;

/// Relies on str::to_lowercase: the result depends on the characters alone,
/// and an empty string stays empty.
#[verifier::external_body]
fn to_lowercase(s: &str) -> (r: String)
    ensures
        r@ == lower_of(s@),
        s@.len() == 0 ==> r@.len() == 0,
{
    s.to_lowercase()
}

/// What compiling `pattern` with regex::Regex::new and testing `text` with
/// regex::Regex::is_match yields: `None` when the pattern does not compile,
/// otherwise `Some` of the match outcome.
pub uninterp spec fn regex_match_of(pattern: Seq<char>, text: Seq<char>) -> Option<bool>;

/// Relies on regex::Regex::new and regex::Regex::is_match: whether the
/// pattern compiles, and whether it then matches the text, depend only on
/// the pattern and text characters.
#[verifier::external_body]
fn regex_match(pattern: &str, text: &str) -> (r: Option<bool>)
    ensures
        r == regex_match_of(pattern@, text@),
{
    match regex::Regex::new(pattern) {
        Ok(re) => Some(re.is_match(text)),
        Err(_) => None,
    }
}

/// The characters that make a pattern be tried as a regular expression.
pub open spec fn is_regex_special(c: char) -> bool {
    c == '*' || c == '^' || c == '$' || c == '[' || c == ']' || c == '(' || c == ')' || c == '{'
        || c == '}' || c == '|' || c == '+' || c == '?' || c == '\\'
}

/// Whether any character of `s` is a regex metacharacter.
pub open spec fn has_regex_char(s: Seq<char>) -> bool {
    exists|i: int| 0 <= i < s.len() && is_regex_special(s[i])
}

fn contains_regex_char(s: &str) -> (r: bool)
    ensures
        r == has_regex_char(s@),
{
    let len = s.unicode_len();
    let mut i: usize = 0;
    while i < len
        invariant
            len == s@.len(),
            i <= len,
            forall|j: int| 0 <= j < i ==> !is_regex_special(s@[j]),
        decreases len - i,
    {
        let c = s.get_char(i);
        if c == '*' || c == '^' || c == '$' || c == '[' || c == ']' || c == '(' || c == ')'
            || c == '{' || c == '}' || c == '|' || c == '+' || c == '?' || c == '\\' {
            assert(is_regex_special(s@[i as int]));
            return true;
        }
        i = i + 1;
    }
    false
}

/// The loosest matching tier: `pattern` read as a regular expression when
/// it holds a metacharacter and compiles, otherwise case-insensitive
/// substring search (an empty pattern matches everything).
pub open spec fn matches_rest(text: Seq<char>, pattern: Seq<char>) -> bool {
    if has_regex_char(pattern) && regex_match_of(pattern, text) is Some {
        regex_match_of(pattern, text)->Some_0
    } else {
        pattern.len() == 0 || contains_sub(lower_of(text), lower_of(pattern))
    }
}

/// The crate-wide matching policy: `text` matches `pattern` when they are
/// equal, equal ignoring case, accepted by `pattern` read as a regular
/// expression (only tried when `pattern` holds a metacharacter and
/// compiles), or when the lowercased pattern is a substring of the
/// lowercased text.
pub open spec fn matches_spec(text: Seq<char>, pattern: Seq<char>) -> bool {
    text == pattern || lower_of(text) == lower_of(pattern) || matches_rest(text, pattern)
}

/// The tier a candidate answers a pattern in: 1 for an exact match, 2 for
/// case-insensitive equality, 3 for a regex or substring match, 0 for no
/// match. Query answers list tier 1 first, then 2, then 3.
pub open spec fn tier_of(text: Seq<char>, pattern: Seq<char>) -> int {
    if text == pattern {
        1
    } else if lower_of(text) == lower_of(pattern) {
        2
    } else if matches_rest(text, pattern) {
        3
    } else {
        0
    }
}

/// Decides the matching tier for the given text and pattern.
pub fn match_tier(text: &str, pattern: &str) -> (r: u8)
    ensures
        r as int == tier_of(text@, pattern@),
{
    if str_eq(text, pattern) {
        return 1;
    }
    let lower_text = to_lowercase(text);
    let lower_pattern = to_lowercase(pattern);
    if lower_text == lower_pattern {
        return 2;
    }
    if contains_regex_char(pattern) {
        match regex_match(pattern, text) {
            Some(b) => {
                return if b {
                    3
                } else {
                    0
                };
            },
            None => {},
        }
    }
    proof {
        if pattern@.len() == 0 {
            assert(lower_pattern@.len() == 0);
            assert(lower_text@.subrange(0, 0) =~= lower_pattern@);
            assert(crate::text::is_substring_at(lower_text@, lower_pattern@, 0));
        }
    }
    if pattern.unicode_len() == 0 || str_contains(lower_text.as_str(), lower_pattern.as_str()) {
        3
    } else {
        0
    }
}

/// Decides `matches_spec` for the given text and pattern.
pub fn matches_pattern(text: &str, pattern: &str) -> (r: bool)
    ensures
        r == matches_spec(text@, pattern@),
{
    match_tier(text, pattern) != 0
}

} // verus!
