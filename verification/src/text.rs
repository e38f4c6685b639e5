//! Small verified string helpers shared by the whole crate: equality and
//! prefix tests over `&str`, decimal rendering of integers, and substring
//! search, each specified over `Seq<char>` views.

use vstd::prelude::*;

verus! {

/// Whether the characters of `a` equal those of `b`.
pub fn str_eq(a: &str, b: &str) -> (r: bool)
    ensures
        r == (a@ == b@),
{
    let sa = a.to_owned();
    let sb = b.to_owned();
    sa == sb
}

/// `n` occurs in `h` starting at position `k`.
pub open spec fn is_substring_at(h: Seq<char>, n: Seq<char>, k: int) -> bool {
    0 <= k && k + n.len() <= h.len() && h.subrange(k, k + n.len() as int) == n
}

/// `n` occurs somewhere in `h`.
pub open spec fn contains_sub(h: Seq<char>, n: Seq<char>) -> bool {
    exists|k: int| is_substring_at(h, n, k)
}

/// `p` is a prefix of `s`.
pub open spec fn is_prefix_of(p: Seq<char>, s: Seq<char>) -> bool {
    p.len() <= s.len() && s.subrange(0, p.len() as int) == p
}

/// Whether the characters of `needle` occur as a prefix of `s`.
pub fn str_starts_with(s: &str, needle: &str) -> (r: bool)
    ensures
        r == is_prefix_of(needle@, s@),
{
    let sl = s.unicode_len();
    let nl = needle.unicode_len();
    if nl > sl {
        return false;
    }
    let mut i: usize = 0;
    while i < nl
        invariant
            nl <= sl,
            sl == s@.len(),
            nl == needle@.len(),
            i <= nl,
            forall|j: int| 0 <= j < i ==> s@[j] == needle@[j],
        decreases nl - i,
    {
        if s.get_char(i) != needle.get_char(i) {
            assert(s@[i as int] != needle@[i as int]);
            assert(!is_prefix_of(needle@, s@)) by {
                if s@.subrange(0, needle@.len() as int) == needle@ {
                    assert(s@.subrange(0, needle@.len() as int)[i as int] == s@[i as int]);
                }
            }
            return false;
        }
        i = i + 1;
    }
    assert(s@.subrange(0, needle@.len() as int) =~= needle@);
    true
}

/// Whether the characters of `needle` occur as a contiguous run in `h`.
pub fn str_contains(h: &str, needle: &str) -> (r: bool)
    ensures
        r == contains_sub(h@, needle@),
{
    let hl = h.unicode_len();
    let nl = needle.unicode_len();
    if nl > hl {
        assert(!contains_sub(h@, needle@)) by {
            if exists|k: int| is_substring_at(h@, needle@, k) {
                let k = choose|k: int| is_substring_at(h@, needle@, k);
            }
        }
        return false;
    }
    if nl == 0 {
        assert(h@.subrange(0, 0) =~= needle@);
        assert(is_substring_at(h@, needle@, 0));
        return true;
    }
    let mut k: usize = 0;
    while k <= hl - nl
        invariant
            0 < nl <= hl,
            hl == h@.len(),
            nl == needle@.len(),
            k <= hl - nl + 1,
            forall|k2: int| 0 <= k2 < k ==> !is_substring_at(h@, needle@, k2),
        decreases hl - nl + 1 - k,
    {
        let mut j: usize = 0;
        let mut hit = true;
        while j < nl
            invariant
                nl <= hl,
                hl == h@.len(),
                nl == needle@.len(),
                k + nl <= hl,
                j <= nl,
                hit ==> forall|j2: int| 0 <= j2 < j ==> h@[k + j2] == needle@[j2],
                !hit ==> !is_substring_at(h@, needle@, k as int),
            decreases nl - j,
        {
            if hit {
                if h.get_char(k + j) != needle.get_char(j) {
                    assert(h@[k + j] != needle@[j as int]);
                    assert(!is_substring_at(h@, needle@, k as int)) by {
                        if h@.subrange(k as int, k + needle@.len() as int) == needle@ {
                            assert(h@.subrange(k as int, k + needle@.len() as int)[j as int]
                                == h@[k + j]);
                        }
                    }
                    hit = false;
                }
            }
            j = j + 1;
        }
        if hit {
            assert(h@.subrange(k as int, k + needle@.len() as int) =~= needle@);
            assert(is_substring_at(h@, needle@, k as int));
            return true;
        }
        k = k + 1;
    }
    assert forall|k2: int| !is_substring_at(h@, needle@, k2) by {
        if 0 <= k2 && k2 + needle@.len() <= h@.len() {
            assert(k2 < k);
        }
    }
    false
}

/// The decimal digit character for `d`.
pub open spec fn digit_char(d: u64) -> char {
    if d == 0 {
        '0'
    } else if d == 1 {
        '1'
    } else if d == 2 {
        '2'
    } else if d == 3 {
        '3'
    } else if d == 4 {
        '4'
    } else if d == 5 {
        '5'
    } else if d == 6 {
        '6'
    } else if d == 7 {
        '7'
    } else if d == 8 {
        '8'
    } else {
        '9'
    }
}

/// The decimal rendering of `n`, most significant digit first.
pub open spec fn u64_digits(n: u64) -> Seq<char>
    decreases n,
{
    if n < 10 {
        seq![digit_char(n)]
    } else {
        u64_digits(n / 10).push(digit_char(n % 10))
    }
}

fn digit_str(d: u64) -> (r: &'static str)
    requires
        d < 10,
    ensures
        r@ == seq![digit_char(d)],
{
    proof {
        reveal_strlit("0");
        reveal_strlit("1");
        reveal_strlit("2");
        reveal_strlit("3");
        reveal_strlit("4");
        reveal_strlit("5");
        reveal_strlit("6");
        reveal_strlit("7");
        reveal_strlit("8");
        reveal_strlit("9");
    }
    let r = if d == 0 {
        "0"
    } else if d == 1 {
        "1"
    } else if d == 2 {
        "2"
    } else if d == 3 {
        "3"
    } else if d == 4 {
        "4"
    } else if d == 5 {
        "5"
    } else if d == 6 {
        "6"
    } else if d == 7 {
        "7"
    } else if d == 8 {
        "8"
    } else {
        "9"
    };
    assert(r@ =~= seq![digit_char(d)]);
    r
}

/// Renders `n` in decimal.
pub fn u64_to_string(n: u64) -> (s: String)
    ensures
        s@ == u64_digits(n),
    decreases n,
{
    if n < 10 {
        digit_str(n).to_owned()
    } else {
        let mut s = u64_to_string(n / 10);
        s.append(digit_str(n % 10));
        assert(s@ =~= u64_digits(n));
        s
    }
}

/// Renders `n` in decimal.
pub fn usize_to_string(n: usize) -> (s: String)
    ensures
        s@ == u64_digits(n as u64),
{
    u64_to_string(n as u64)
}

} // verus!

verus! {

/// Lexicographic order on character sequences, by code point.
pub open spec fn lex_lt(a: Seq<char>, b: Seq<char>) -> bool
    decreases a.len(),
{
    if b.len() == 0 {
        false
    } else if a.len() == 0 {
        true
    } else if (a[0] as u32) < (b[0] as u32) {
        true
    } else if a[0] == b[0] {
        lex_lt(a.drop_first(), b.drop_first())
    } else {
        false
    }
}

} // verus!
