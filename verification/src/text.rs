//! Character-level text utilities: conversion between `&str` and `Vec<char>`,
//! ASCII trimming, and stripping of platform mention tags like `<@123456>`.
//!
//! Specifications work over `Seq<char>`, the view of both `str` and `String`.

use vstd::prelude::*;

verus! {

/// The whitespace characters that trimming removes.
pub open spec fn is_space_char(c: char) -> bool {
    c == ' ' || c == '\t' || c == '\n' || c == '\r'
}

/// Whether `c` counts as trimmable whitespace.
pub fn is_space(c: char) -> (r: bool)
    ensures
        r == is_space_char(c),
{
    c == ' ' || c == '\t' || c == '\n' || c == '\r'
}

/// The characters of `s`, in order.
pub fn str_to_chars(s: &str) -> (r: Vec<char>)
    ensures
        r@ == s@,
{
    let n = s.unicode_len();
    let mut r: Vec<char> = Vec::new();
    let mut i: usize = 0;
    while i < n
        invariant
            n == s@.len(),
            i <= n,
            r@ == s@.subrange(0, i as int),
        decreases n - i,
    {
        r.push(s.get_char(i));
        i = i + 1;
        proof {
            assert(r@ =~= s@.subrange(0, i as int));
        }
    }
    proof {
        assert(r@ =~= s@);
    }
    r
}

/// Relies on `String`'s `FromIterator<char>` impl: collecting characters
/// yields the string of exactly those characters in order.
#[verifier::external_body]
pub fn string_from_chars(v: &Vec<char>) -> (r: String)
    ensures
        r@ == v@,
{
    v.iter().collect()
}

/// `s` without leading whitespace.
pub open spec fn trim_start_spec(s: Seq<char>) -> Seq<char>
    decreases s.len(),
{
    if s.len() > 0 && is_space_char(s[0]) {
        trim_start_spec(s.drop_first())
    } else {
        s
    }
}

/// `s` without trailing whitespace.
pub open spec fn trim_end_spec(s: Seq<char>) -> Seq<char>
    decreases s.len(),
{
    if s.len() > 0 && is_space_char(s.last()) {
        trim_end_spec(s.drop_last())
    } else {
        s
    }
}

/// `s` without leading or trailing whitespace.
pub open spec fn trim_spec(s: Seq<char>) -> Seq<char> {
    trim_end_spec(trim_start_spec(s))
}

proof fn lemma_trim_start_skip(s: Seq<char>, i: int)
    requires
        0 <= i <= s.len(),
        forall|k: int| 0 <= k < i ==> is_space_char(s[k]),
        i == s.len() || !is_space_char(s[i]),
    ensures
        trim_start_spec(s) == s.subrange(i, s.len() as int),
    decreases i,
{
    if i == 0 {
        assert(s.subrange(0, s.len() as int) =~= s);
    } else {
        assert(is_space_char(s[0]));
        let t = s.drop_first();
        assert(t =~= s.subrange(1, s.len() as int));
        lemma_trim_start_skip(t, i - 1);
        assert(t.subrange(i - 1, t.len() as int) =~= s.subrange(i, s.len() as int));
    }
}

proof fn lemma_trim_end_take(s: Seq<char>, e: int)
    requires
        0 <= e <= s.len(),
        forall|k: int| e <= k < s.len() ==> is_space_char(s[k]),
        e == 0 || !is_space_char(s[e - 1]),
    ensures
        trim_end_spec(s) == s.subrange(0, e),
    decreases s.len() - e,
{
    if e == s.len() {
        if s.len() > 0 {
            assert(!is_space_char(s.last()));
        }
        assert(s.subrange(0, e) =~= s);
    } else {
        assert(is_space_char(s.last()));
        let t = s.drop_last();
        assert(t =~= s.subrange(0, s.len() - 1));
        lemma_trim_end_take(t, e);
        assert(t.subrange(0, e) =~= s.subrange(0, e));
    }
}

/// `v` with leading and trailing whitespace removed.
pub fn trim_chars(v: &Vec<char>) -> (r: Vec<char>)
    ensures
        r@ == trim_spec(v@),
{
    let n = v.len();
    let mut start: usize = 0;
    while start < n && is_space(v[start])
        invariant
            n == v@.len(),
            start <= n,
            forall|k: int| 0 <= k < start ==> is_space_char(v@[k]),
        decreases n - start,
    {
        start = start + 1;
    }
    proof {
        lemma_trim_start_skip(v@, start as int);
    }
    let ghost t = v@.subrange(start as int, n as int);
    let mut end: usize = n;
    while end > start && is_space(v[end - 1])
        invariant
            n == v@.len(),
            start <= end <= n,
            t == v@.subrange(start as int, n as int),
            forall|k: int| end <= k < n ==> is_space_char(v@[k]),
        decreases end,
    {
        end = end - 1;
    }
    proof {
        assert(forall|k: int|
            end - start <= k < t.len() ==> is_space_char(#[trigger] t[k]));
        if end > start {
            assert(t[end - start - 1] == v@[end - 1]);
        }
        lemma_trim_end_take(t, end - start);
    }
    let mut r: Vec<char> = Vec::new();
    let mut i: usize = start;
    while i < end
        invariant
            start <= i <= end <= n,
            n == v@.len(),
            r@ == v@.subrange(start as int, i as int),
        decreases end - i,
    {
        r.push(v[i]);
        i = i + 1;
        proof {
            assert(r@ =~= v@.subrange(start as int, i as int));
        }
    }
    proof {
        assert(t.subrange(0, end - start) =~= v@.subrange(start as int, end as int));
    }
    r
}

/// The least index `j >= i` with `s[j] == c`, or `s.len()` if there is none.
pub open spec fn find_from(s: Seq<char>, i: int, c: char) -> int
    decreases s.len() - i,
{
    if i < 0 || i >= s.len() {
        s.len() as int
    } else if s[i] == c {
        i
    } else {
        find_from(s, i + 1, c)
    }
}

/// `find_from` stays within `[i, s.len()]` and lands on `c` when it finds
/// one.
pub proof fn lemma_find_from_bounds(s: Seq<char>, i: int, c: char)
    requires
        0 <= i <= s.len(),
    ensures
        i <= find_from(s, i, c) <= s.len(),
        find_from(s, i, c) < s.len() ==> s[find_from(s, i, c)] == c,
    decreases s.len() - i,
{
    if i < s.len() && s[i] != c {
        lemma_find_from_bounds(s, i + 1, c);
    }
}

/// The least index of `c` in `v` at or after `from`, or `v.len()` if absent.
pub fn find_char_from(v: &Vec<char>, from: usize, c: char) -> (r: usize)
    requires
        from <= v@.len(),
    ensures
        r == find_from(v@, from as int, c),
        from <= r <= v@.len(),
        r < v@.len() ==> v@[r as int] == c,
    {
    let n = v.len();
    let mut i: usize = from;
    while i < n && v[i] != c
        invariant
            from <= i <= n,
            n == v@.len(),
            find_from(v@, from as int, c) == find_from(v@, i as int, c),
        decreases n - i,
    {
        i = i + 1;
    }
    proof {
        lemma_find_from_bounds(v@, i as int, c);
    }
    i
}

/// The first index `j >= i` whose character is not a plain space.
pub open spec fn skip_spaces_from(s: Seq<char>, i: int) -> int
    decreases s.len() - i,
{
    if 0 <= i < s.len() && s[i] == ' ' {
        skip_spaces_from(s, i + 1)
    } else {
        i
    }
}

proof fn lemma_skip_spaces_bounds(s: Seq<char>, i: int)
    requires
        0 <= i <= s.len(),
    ensures
        i <= skip_spaces_from(s, i) <= s.len(),
    decreases s.len() - i,
{
    if i < s.len() && s[i] == ' ' {
        lemma_skip_spaces_bounds(s, i + 1);
    }
}

/// The tail of `s` from position `i`, with every mention tag `<@...>` (and
/// the spaces that follow it) removed. A `<@` with no closing `>` is kept
/// as ordinary text.
pub open spec fn strip_tags_from(s: Seq<char>, i: int) -> Seq<char>
    decreases s.len() - i,
    via strip_tags_from_dec
{
    if i < 0 || i >= s.len() {
        Seq::empty()
    } else if s[i] == '<' && i + 1 < s.len() && s[i + 1] == '@' && find_from(s, i, '>')
        < s.len() {
        strip_tags_from(s, skip_spaces_from(s, find_from(s, i, '>') + 1))
    } else {
        seq![s[i]] + strip_tags_from(s, i + 1)
    }
}

#[via_fn]
proof fn strip_tags_from_dec(s: Seq<char>, i: int) {
    if 0 <= i < s.len() {
        if s[i] == '<' && i + 1 < s.len() && s[i + 1] == '@' && find_from(s, i, '>')
            < s.len() {
            lemma_find_from_bounds(s, i, '>');
            let j = find_from(s, i, '>');
            assert(j > i) by {
                assert(s[i] == '<');
            }
            lemma_skip_spaces_bounds(s, j + 1);
        }
    }
}

/// The full content with mention tags stripped and the result trimmed.
pub open spec fn stripped_content(s: Seq<char>) -> Seq<char> {
    trim_spec(strip_tags_from(s, 0))
}

/// Strip mention tags like `<@123456>` from `content`, then trim whitespace.
pub fn strip_mention_tags(content: &str) -> (r: String)
    ensures
        r@ == stripped_content(content@),
{
    let chars = str_to_chars(content);
    let n = chars.len();
    let mut out: Vec<char> = Vec::new();
    let mut i: usize = 0;
    while i < n
        invariant
            i <= n,
            n == chars@.len(),
            chars@ == content@,
            out@ + strip_tags_from(chars@, i as int) == strip_tags_from(chars@, 0),
        decreases n - i,
    {
        if chars[i] == '<' && i + 1 < n && chars[i + 1] == '@' {
            let j = find_char_from(&chars, i, '>');
            if j < n {
                proof {
                    lemma_skip_spaces_bounds(chars@, j + 1);
                }
                let mut k: usize = j + 1;
                while k < n && chars[k] == ' '
                    invariant
                        j + 1 <= k <= n,
                        n == chars@.len(),
                        skip_spaces_from(chars@, j + 1) == skip_spaces_from(
                            chars@,
                            k as int,
                        ),
                    decreases n - k,
                {
                    k = k + 1;
                }
                proof {
                    assert(skip_spaces_from(chars@, k as int) == k);
                    assert(strip_tags_from(chars@, i as int) == strip_tags_from(
                        chars@,
                        k as int,
                    ));
                }
                i = k;
                continue;
            }
        }
        proof {
            assert(strip_tags_from(chars@, i as int) =~= seq![chars@[i as int]]
                + strip_tags_from(chars@, i + 1));
            assert((out@ + seq![chars@[i as int]]) + strip_tags_from(chars@, i + 1)
                =~= out@ + strip_tags_from(chars@, i as int));
        }
        out.push(chars[i]);
        i = i + 1;
    }
    proof {
        assert(out@ + strip_tags_from(chars@, n as int) =~= out@);
    }
    let trimmed = trim_chars(&out);
    string_from_chars(&trimmed)
}

/// The number of whitespace-separated words in `s`, counted from index `i`
/// with `in_word` telling whether position `i` continues a word.
pub open spec fn word_count_from(s: Seq<char>, i: int, in_word: bool) -> nat
    decreases s.len() - i,
{
    if i < 0 || i >= s.len() {
        0
    } else if is_space_char(s[i]) {
        word_count_from(s, i + 1, false)
    } else if in_word {
        word_count_from(s, i + 1, true)
    } else {
        1 + word_count_from(s, i + 1, true)
    }
}

/// The number of whitespace-separated words in `s`.
pub open spec fn word_count(s: Seq<char>) -> nat {
    word_count_from(s, 0, false)
}

/// Count whitespace-separated words, as `str::split_whitespace` does for
/// ASCII whitespace.
pub fn count_words(content: &str) -> (r: usize)
    ensures
        r == word_count(content@),
{
    let chars = str_to_chars(content);
    let n = chars.len();
    let mut count: usize = 0;
    let mut in_word = false;
    let mut i: usize = 0;
    while i < n
        invariant
            i <= n,
            n == chars@.len(),
            chars@ == content@,
            count + word_count_from(chars@, i as int, in_word) == word_count(chars@),
            count <= i,
        decreases n - i,
    {
        if is_space(chars[i]) {
            in_word = false;
        } else if !in_word {
            count = count + 1;
            in_word = true;
        }
        i = i + 1;
    }
    count
}

/// The characters of `v` from `from` (inclusive) to `to` (exclusive).
pub fn chars_slice(v: &Vec<char>, from: usize, to: usize) -> (r: Vec<char>)
    requires
        from <= to <= v@.len(),
    ensures
        r@ == v@.subrange(from as int, to as int),
{
    let mut r: Vec<char> = Vec::new();
    let mut i: usize = from;
    while i < to
        invariant
            from <= i <= to <= v@.len(),
            r@ == v@.subrange(from as int, i as int),
        decreases to - i,
    {
        r.push(v[i]);
        proof {
            assert(r@ =~= v@.subrange(from as int, i + 1));
        }
        i = i + 1;
    }
    r
}

/// Whether two string slices hold the same characters.
pub fn str_eq(a: &str, b: &str) -> (r: bool)
    ensures
        r == (a@ == b@),
{
    let x = a.to_owned();
    let y = b.to_owned();
    x == y
}

/// Whether `c` occurs in `s`.
pub open spec fn contains_char(s: Seq<char>, c: char) -> bool {
    exists|j: int| 0 <= j < s.len() && s[j] == c
}

/// Whether `c` occurs in `content`.
pub fn str_contains_char(content: &str, c: char) -> (r: bool)
    ensures
        r == contains_char(content@, c),
{
    let chars = str_to_chars(content);
    let n = chars.len();
    let mut i: usize = 0;
    while i < n
        invariant
            i <= n,
            n == chars@.len(),
            chars@ == content@,
            forall|j: int| 0 <= j < i ==> chars@[j] != c,
        decreases n - i,
    {
        if chars[i] == c {
            return true;
        }
        i = i + 1;
    }
    false
}

} // verus!
