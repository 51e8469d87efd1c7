//! Character classes and maximal-run scanning over `Seq<char>`.
//!
//! The DDL scanners work over ASCII classes: identifier ("word")
//! characters, whitespace, and case-insensitive letter comparison.
//! Non-ASCII characters are never word characters and never whitespace,
//! which is the precision boundary this parser accepts.

use vstd::prelude::*;

verus! {

/// Identifier characters: ASCII letters, digits and underscore.
pub open spec fn is_word_char(c: char) -> bool {
    ('a' <= c && c <= 'z') || ('A' <= c && c <= 'Z') || ('0' <= c && c <= '9') || c == '_'
}

/// Whitespace as the scanners understand it: space, tab, line feed,
/// carriage return, vertical tab, form feed.
pub open spec fn is_space_char(c: char) -> bool {
    c == ' ' || c == '\t' || c == '\n' || c == '\r' || c == '\u{b}' || c == '\u{c}'
}

/// Code point of `c` with an ASCII lowercase letter folded to its
/// uppercase counterpart; every other character is left as it is.
pub open spec fn upper(c: char) -> int {
    if 'a' <= c && c <= 'z' {
        (c as int) - 32
    } else {
        c as int
    }
}

/// Case-insensitive character equality over ASCII letters.
pub open spec fn char_ieq(a: char, b: char) -> bool {
    upper(a) == upper(b)
}

/// End of the maximal run of word characters starting at `i`.
pub open spec fn word_end(s: Seq<char>, i: int) -> int
    decreases s.len() - i when 0 <= i <= s.len()
{
    if i < s.len() && is_word_char(s[i]) {
        word_end(s, i + 1)
    } else {
        i
    }
}

/// End of the maximal run of whitespace characters starting at `i`.
pub open spec fn space_end(s: Seq<char>, i: int) -> int
    decreases s.len() - i when 0 <= i <= s.len()
{
    if i < s.len() && is_space_char(s[i]) {
        space_end(s, i + 1)
    } else {
        i
    }
}

/// End of the maximal run of non-semicolon characters starting at `i`.
pub open spec fn non_semi_end(s: Seq<char>, i: int) -> int
    decreases s.len() - i when 0 <= i <= s.len()
{
    if i < s.len() && s[i] != ';' {
        non_semi_end(s, i + 1)
    } else {
        i
    }
}

/// Position after dropping trailing whitespace from `s[i..j]`.
pub open spec fn trim_trailing(s: Seq<char>, i: int, j: int) -> int
    decreases j - i when 0 <= i <= j <= s.len()
{
    if j > i && is_space_char(s[j - 1]) {
        trim_trailing(s, i, j - 1)
    } else {
        j
    }
}

pub proof fn lemma_word_end(s: Seq<char>, i: int)
    requires
        0 <= i <= s.len(),
    ensures
        i <= word_end(s, i) <= s.len(),
        forall|k: int| i <= k < word_end(s, i) ==> is_word_char(s[k]),
        word_end(s, i) < s.len() ==> !is_word_char(s[word_end(s, i)]),
    decreases s.len() - i,
{
    if i < s.len() && is_word_char(s[i]) {
        lemma_word_end(s, i + 1);
    }
}

pub proof fn lemma_space_end(s: Seq<char>, i: int)
    requires
        0 <= i <= s.len(),
    ensures
        i <= space_end(s, i) <= s.len(),
        forall|k: int| i <= k < space_end(s, i) ==> is_space_char(s[k]),
        space_end(s, i) < s.len() ==> !is_space_char(s[space_end(s, i)]),
    decreases s.len() - i,
{
    if i < s.len() && is_space_char(s[i]) {
        lemma_space_end(s, i + 1);
    }
}

pub proof fn lemma_trim_trailing(s: Seq<char>, i: int, j: int)
    requires
        0 <= i <= j <= s.len(),
    ensures
        i <= trim_trailing(s, i, j) <= j,
    decreases j - i,
{
    if j > i && is_space_char(s[j - 1]) {
        lemma_trim_trailing(s, i, j - 1);
    }
}

/// Executable form of [`is_word_char`].
pub fn word_char(c: char) -> (r: bool)
    ensures
        r == is_word_char(c),
{
    ('a' <= c && c <= 'z') || ('A' <= c && c <= 'Z') || ('0' <= c && c <= '9') || c == '_'
}

/// Executable form of [`is_space_char`].
pub fn space_char(c: char) -> (r: bool)
    ensures
        r == is_space_char(c),
{
    c == ' ' || c == '\t' || c == '\n' || c == '\r' || c == '\u{b}' || c == '\u{c}'
}

/// Executable case-insensitive character comparison.
pub fn chars_ieq(a: char, b: char) -> (r: bool)
    ensures
        r == char_ieq(a, b),
{
    let ua: u32 = if 'a' <= a && a <= 'z' {
        (a as u32) - 32
    } else {
        a as u32
    };
    let ub: u32 = if 'a' <= b && b <= 'z' {
        (b as u32) - 32
    } else {
        b as u32
    };
    ua == ub
}

/// The characters of `s`, one per sequence position.
pub fn chars_of(s: &str) -> (v: Vec<char>)
    ensures
        v@ == s@,
{
    let n = s.unicode_len();
    let mut v: Vec<char> = Vec::new();
    let mut i: usize = 0;
    while i < n
        invariant
            n == s@.len(),
            i <= n,
            v@ == s@.subrange(0, i as int),
        decreases n - i,
    {
        let c = s.get_char(i);
        v.push(c);
        i = i + 1;
        proof {
            assert(v@ =~= s@.subrange(0, i as int));
        }
    }
    proof {
        assert(v@ =~= s@);
    }
    v
}

/// Advance over the maximal word-character run starting at `i`.
pub fn scan_word(v: &Vec<char>, i: usize) -> (r: usize)
    requires
        i <= v@.len(),
    ensures
        r == word_end(v@, i as int),
        i <= r <= v@.len(),
{
    proof {
        lemma_word_end(v@, i as int);
    }
    let mut j = i;
    while j < v.len() && word_char(v[j])
        invariant
            i <= j <= v@.len(),
            word_end(v@, i as int) == word_end(v@, j as int),
        decreases v@.len() - j,
    {
        j = j + 1;
    }
    j
}

/// Advance over the maximal whitespace run starting at `i`.
pub fn scan_space(v: &Vec<char>, i: usize) -> (r: usize)
    requires
        i <= v@.len(),
    ensures
        r == space_end(v@, i as int),
        i <= r <= v@.len(),
{
    proof {
        lemma_space_end(v@, i as int);
    }
    let mut j = i;
    while j < v.len() && space_char(v[j])
        invariant
            i <= j <= v@.len(),
            space_end(v@, i as int) == space_end(v@, j as int),
        decreases v@.len() - j,
    {
        j = j + 1;
    }
    j
}

/// Advance over the maximal non-semicolon run starting at `i`.
pub fn scan_non_semi(v: &Vec<char>, i: usize) -> (r: usize)
    requires
        i <= v@.len(),
    ensures
        r == non_semi_end(v@, i as int),
        i <= r <= v@.len(),
{
    let mut j = i;
    while j < v.len() && v[j] != ';'
        invariant
            i <= j <= v@.len(),
            non_semi_end(v@, i as int) == non_semi_end(v@, j as int),
        decreases v@.len() - j,
    {
        j = j + 1;
    }
    proof {
        lemma_non_semi_end(v@, i as int);
    }
    j
}

proof fn lemma_non_semi_end(s: Seq<char>, i: int)
    requires
        0 <= i <= s.len(),
    ensures
        i <= non_semi_end(s, i) <= s.len(),
    decreases s.len() - i,
{
    if i < s.len() && s[i] != ';' {
        lemma_non_semi_end(s, i + 1);
    }
}

/// Step back over trailing whitespace in `v[i..j]`.
pub fn scan_trim_trailing(v: &Vec<char>, i: usize, j: usize) -> (r: usize)
    requires
        i <= j <= v@.len(),
    ensures
        r == trim_trailing(v@, i as int, j as int),
        i <= r <= j,
{
    proof {
        lemma_trim_trailing(v@, i as int, j as int);
    }
    let mut k = j;
    while k > i && space_char(v[k - 1])
        invariant
            i <= k <= j <= v@.len(),
            trim_trailing(v@, i as int, j as int) == trim_trailing(v@, i as int, k as int),
        decreases k,
    {
        k = k - 1;
    }
    k
}

} // verus!
