//! Conversions between strings and character vectors, and the comparisons
//! and searches on them that the rest of the library is built from.

use vstd::prelude::*;

verus! {

/// Calls `String::push`, which appends one character to the string.
#[verifier::external_body]
fn push_char(s: &mut String, c: char)
    ensures
        final(s)@ == old(s)@.push(c),
{
    s.push(c)
}

/// The texts held by a vector of strings.
pub open spec fn string_texts(v: Seq<String>) -> Seq<Seq<char>> {
    Seq::new(v.len(), |i: int| v[i]@)
}

/// The texts held by a vector of character vectors.
pub open spec fn char_texts(v: Seq<Vec<char>>) -> Seq<Seq<char>> {
    Seq::new(v.len(), |i: int| v[i]@)
}

/// The characters of `s`, in order.
pub fn chars_of(s: &str) -> (r: Vec<char>)
    ensures
        r@ == s@,
{
    let mut out: Vec<char> = Vec::new();
    for c in it: s.chars()
        invariant
            it.seq() == s@,
            out@ == it.seq().take(it.index() as int),
    {
        out.push(c);
        assert(it.seq().take(it.index() + 1) == it.seq().take(it.index() as int).push(c));
    }
    assert(s@.take(s@.len() as int) == s@);
    out
}

/// The string made of the characters of `v`, in order.
pub fn string_of(v: &Vec<char>) -> (r: String)
    ensures
        r@ == v@,
{
    let mut out = String::new();
    let n = v.len();
    let mut i: usize = 0;
    while i < n
        invariant
            n == v.len(),
            i <= n,
            out@ == v@.take(i as int),
        decreases n - i,
    {
        push_char(&mut out, v[i]);
        assert(v@.take(i + 1) == v@.take(i as int).push(v[i as int]));
        i += 1;
    }
    assert(v@.take(n as int) == v@);
    out
}

/// Whether two character vectors hold the same text.
pub fn same_chars(a: &Vec<char>, b: &Vec<char>) -> (r: bool)
    ensures
        r == (a@ == b@),
{
    if a.len() != b.len() {
        return false;
    }
    let n = a.len();
    let mut i: usize = 0;
    while i < n
        invariant
            n == a.len(),
            n == b.len(),
            i <= n,
            a@.take(i as int) == b@.take(i as int),
        decreases n - i,
    {
        if a[i] != b[i] {
            return false;
        }
        assert(a@.take(i + 1) == a@.take(i as int).push(a[i as int]));
        assert(b@.take(i + 1) == b@.take(i as int).push(b[i as int]));
        i += 1;
    }
    assert(a@.take(n as int) == a@);
    assert(b@.take(n as int) == b@);
    true
}

/// Whether two strings hold the same text.
pub fn same_text(a: &str, b: &str) -> (r: bool)
    ensures
        r == (a@ == b@),
{
    same_chars(&chars_of(a), &chars_of(b))
}

/// Whether `text` begins with `prefix`.
pub open spec fn has_prefix(text: Seq<char>, prefix: Seq<char>) -> bool {
    prefix.len() <= text.len() && text.take(prefix.len() as int) == prefix
}

/// Whether `text` begins with `prefix`.
pub fn starts_with_chars(text: &Vec<char>, prefix: &Vec<char>) -> (r: bool)
    ensures
        r == has_prefix(text@, prefix@),
{
    if text.len() < prefix.len() {
        return false;
    }
    let m = prefix.len();
    let mut i: usize = 0;
    while i < m
        invariant
            m == prefix.len(),
            m <= text.len(),
            i <= m,
            text@.take(i as int) == prefix@.take(i as int),
        decreases m - i,
    {
        if text[i] != prefix[i] {
            assert(text@.take(m as int)[i as int] != prefix@[i as int]);
            return false;
        }
        assert(text@.take(i + 1) == text@.take(i as int).push(text[i as int]));
        assert(prefix@.take(i + 1) == prefix@.take(i as int).push(prefix[i as int]));
        i += 1;
    }
    assert(prefix@.take(m as int) == prefix@);
    true
}

/// Whether `needle` occurs in `haystack` starting at position `at`.
pub open spec fn occurs_at(haystack: Seq<char>, needle: Seq<char>, at: int) -> bool {
    &&& 0 <= at
    &&& at + needle.len() <= haystack.len()
    &&& haystack.subrange(at, at + needle.len()) == needle
}

/// Whether `needle` occurs somewhere in `haystack`.
pub open spec fn contains_text(haystack: Seq<char>, needle: Seq<char>) -> bool {
    exists|at: int| occurs_at(haystack, needle, at)
}

fn matches_at(haystack: &Vec<char>, needle: &Vec<char>, at: usize) -> (r: bool)
    requires
        at + needle.len() <= haystack.len(),
    ensures
        r == occurs_at(haystack@, needle@, at as int),
{
    let m = needle.len();
    let mut j: usize = 0;
    while j < m
        invariant
            m == needle.len(),
            at + m <= haystack.len(),
            j <= m,
            haystack@.subrange(at as int, at + j) == needle@.take(j as int),
        decreases m - j,
    {
        if haystack[at + j] != needle[j] {
            assert(haystack@.subrange(at as int, at + m)[j as int] != needle@[j as int]);
            return false;
        }
        assert(haystack@.subrange(at as int, at + j + 1) == haystack@.subrange(
            at as int,
            at + j,
        ).push(haystack[at + j]));
        assert(needle@.take(j + 1) == needle@.take(j as int).push(needle[j as int]));
        j += 1;
    }
    assert(needle@.take(m as int) == needle@);
    true
}

/// Whether `needle` occurs somewhere in `haystack`.
pub fn contains_chars(haystack: &Vec<char>, needle: &Vec<char>) -> (r: bool)
    ensures
        r == contains_text(haystack@, needle@),
{
    let n = haystack.len();
    let m = needle.len();
    if m > n {
        return false;
    }
    let last = n - m;
    let mut at: usize = 0;
    while at < last
        invariant
            n == haystack.len(),
            m == needle.len(),
            last == n - m,
            at <= last,
            forall|k: int| 0 <= k < at ==> !occurs_at(haystack@, needle@, k),
        decreases last - at,
    {
        if matches_at(haystack, needle, at) {
            return true;
        }
        at += 1;
    }
    matches_at(haystack, needle, last)
}

/// Strict lexicographic order on texts, comparing code points. This is the
/// order in which Rust compares strings.
pub open spec fn text_less(a: Seq<char>, b: Seq<char>) -> bool
    decreases a.len(),
{
    if b.len() == 0 {
        false
    } else if a.len() == 0 {
        true
    } else if a[0] != b[0] {
        a[0] < b[0]
    } else {
        text_less(a.drop_first(), b.drop_first())
    }
}

/// No text comes before itself.
pub proof fn lemma_text_less_irreflexive(a: Seq<char>)
    ensures
        !text_less(a, a),
    decreases a.len(),
{
    if a.len() > 0 {
        lemma_text_less_irreflexive(a.drop_first());
    }
}

/// The order on texts is transitive.
pub proof fn lemma_text_less_transitive(a: Seq<char>, b: Seq<char>, c: Seq<char>)
    requires
        text_less(a, b),
        text_less(b, c),
    ensures
        text_less(a, c),
    decreases a.len(),
{
    if a.len() > 0 && a[0] == b[0] && b[0] == c[0] {
        lemma_text_less_transitive(a.drop_first(), b.drop_first(), c.drop_first());
    }
}

/// Of two different texts one comes before the other.
pub proof fn lemma_text_less_total(a: Seq<char>, b: Seq<char>)
    ensures
        text_less(a, b) || text_less(b, a) || a == b,
    decreases a.len(),
{
    if a.len() > 0 && b.len() > 0 && a[0] == b[0] {
        lemma_text_less_total(a.drop_first(), b.drop_first());
        if a.drop_first() == b.drop_first() {
            assert(a =~= seq![a[0]] + a.drop_first());
            assert(b =~= seq![b[0]] + b.drop_first());
        }
    } else if a.len() == 0 && b.len() == 0 {
        assert(a =~= b);
    }
}

/// Whether `a` comes strictly before `b` in lexicographic order.
pub fn chars_less(a: &Vec<char>, b: &Vec<char>) -> (r: bool)
    ensures
        r == text_less(a@, b@),
{
    let n = a.len();
    let m = b.len();
    let mut i: usize = 0;
    assert(a@.skip(0) == a@);
    assert(b@.skip(0) == b@);
    while i < n && i < m
        invariant
            n == a.len(),
            m == b.len(),
            i <= n,
            i <= m,
            text_less(a@, b@) == text_less(a@.skip(i as int), b@.skip(i as int)),
        decreases n - i,
    {
        assert(a@.skip(i as int).drop_first() == a@.skip(i + 1));
        assert(b@.skip(i as int).drop_first() == b@.skip(i + 1));
        if a[i] != b[i] {
            return a[i] < b[i];
        }
        i += 1;
    }
    i < m
}

} // verus!
