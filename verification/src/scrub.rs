//! The character-level scrubbing stages: stripping of control and
//! zero-width characters, whitespace compaction, trimming and the length
//! cap.

use vstd::prelude::*;
use crate::chars::{
    control_char, is_control_char, is_whitespace_char, is_zero_width_char, whitespace_char,
    zero_width_char,
};

verus! {

/// `s` without its control characters.
pub open spec fn without_control_chars(s: Seq<char>) -> Seq<char> {
    s.filter(|c: char| !control_char(c))
}

/// `s` without its zero-width and bidirectional control characters.
pub open spec fn without_zero_width_chars(s: Seq<char>) -> Seq<char> {
    s.filter(|c: char| !zero_width_char(c))
}

/// `s` with every maximal run of whitespace replaced by a single space: a
/// whitespace character contributes a space when it starts a run and
/// nothing otherwise.
pub open spec fn compact_whitespace(s: Seq<char>) -> Seq<char>
    decreases s.len(),
{
    if s.len() == 0 {
        s
    } else {
        let head = compact_whitespace(s.drop_last());
        if !whitespace_char(s.last()) {
            head.push(s.last())
        } else if s.len() >= 2 && whitespace_char(s[s.len() - 2]) {
            head
        } else {
            head.push(' ')
        }
    }
}

/// `s` without its leading whitespace.
pub open spec fn trim_start(s: Seq<char>) -> Seq<char>
    decreases s.len(),
{
    if s.len() > 0 && whitespace_char(s[0]) {
        trim_start(s.drop_first())
    } else {
        s
    }
}

/// `s` without its trailing whitespace.
pub open spec fn trim_end(s: Seq<char>) -> Seq<char>
    decreases s.len(),
{
    if s.len() > 0 && whitespace_char(s.last()) {
        trim_end(s.drop_last())
    } else {
        s
    }
}

/// `s` without its leading and trailing whitespace.
pub open spec fn trim(s: Seq<char>) -> Seq<char> {
    trim_end(trim_start(s))
}

/// `s` cut down to its first `max` characters.
pub open spec fn capped(s: Seq<char>, max: nat) -> Seq<char> {
    if s.len() > max {
        s.take(max as int)
    } else {
        s
    }
}

/// A text none of whose characters is whitespace at either end.
pub open spec fn is_trimmed(s: Seq<char>) -> bool {
    s.len() > 0 ==> !whitespace_char(s[0]) && !whitespace_char(s.last())
}

/// Removes the control characters of `v`.
pub fn remove_control_chars(v: &Vec<char>) -> (r: Vec<char>)
    ensures
        r@ == without_control_chars(v@),
{
    let mut out: Vec<char> = Vec::new();
    let n = v.len();
    let mut i: usize = 0;
    proof {
        reveal(Seq::filter);
    }
    while i < n
        invariant
            n == v.len(),
            i <= n,
            out@ == without_control_chars(v@.take(i as int)),
        decreases n - i,
    {
        proof {
            reveal(Seq::filter);
            assert(v@.take(i + 1).drop_last() == v@.take(i as int));
        }
        if !is_control_char(v[i]) {
            out.push(v[i]);
        }
        i += 1;
    }
    assert(v@.take(n as int) == v@);
    out
}

/// Removes the zero-width and bidirectional control characters of `v`.
pub fn remove_zero_width_chars(v: &Vec<char>) -> (r: Vec<char>)
    ensures
        r@ == without_zero_width_chars(v@),
{
    let mut out: Vec<char> = Vec::new();
    let n = v.len();
    let mut i: usize = 0;
    proof {
        reveal(Seq::filter);
    }
    while i < n
        invariant
            n == v.len(),
            i <= n,
            out@ == without_zero_width_chars(v@.take(i as int)),
        decreases n - i,
    {
        proof {
            reveal(Seq::filter);
            assert(v@.take(i + 1).drop_last() == v@.take(i as int));
        }
        if !is_zero_width_char(v[i]) {
            out.push(v[i]);
        }
        i += 1;
    }
    assert(v@.take(n as int) == v@);
    out
}

/// Replaces every run of whitespace in `v` by a single space.
pub fn compact_whitespace_chars(v: &Vec<char>) -> (r: Vec<char>)
    ensures
        r@ == compact_whitespace(v@),
{
    let mut out: Vec<char> = Vec::new();
    let n = v.len();
    let mut i: usize = 0;
    let mut in_run = false;
    while i < n
        invariant
            n == v.len(),
            i <= n,
            out@ == compact_whitespace(v@.take(i as int)),
            in_run == (i > 0 && whitespace_char(v[i - 1])),
        decreases n - i,
    {
        assert(v@.take(i + 1).drop_last() == v@.take(i as int));
        let c = v[i];
        if !is_whitespace_char(c) {
            out.push(c);
            in_run = false;
        } else {
            if !in_run {
                out.push(' ');
            }
            in_run = true;
        }
        i += 1;
    }
    assert(v@.take(n as int) == v@);
    out
}

proof fn lemma_trim_start_skips(s: Seq<char>, k: int)
    requires
        0 <= k <= s.len(),
        forall|j: int| 0 <= j < k ==> whitespace_char(s[j]),
        k < s.len() ==> !whitespace_char(s[k]),
    ensures
        trim_start(s) == s.skip(k),
    decreases k,
{
    if k == 0 {
        assert(s.skip(0) == s);
    } else {
        lemma_trim_start_skips(s.drop_first(), k - 1);
        assert(s.drop_first().skip(k - 1) == s.skip(k));
    }
}

proof fn lemma_trim_end_takes(s: Seq<char>, k: int)
    requires
        0 <= k <= s.len(),
        forall|j: int| k <= j < s.len() ==> whitespace_char(s[j]),
        k > 0 ==> !whitespace_char(s[k - 1]),
    ensures
        trim_end(s) == s.take(k),
    decreases s.len() - k,
{
    if k == s.len() {
        assert(s.take(k) == s);
    } else {
        lemma_trim_end_takes(s.drop_last(), k);
        assert(s.drop_last().take(k) == s.take(k));
    }
}

/// Removes the whitespace at both ends of `v`.
pub fn trim_chars(v: &Vec<char>) -> (r: Vec<char>)
    ensures
        r@ == trim(v@),
{
    let n = v.len();
    let mut start: usize = 0;
    while start < n && is_whitespace_char(v[start])
        invariant
            n == v.len(),
            start <= n,
            forall|j: int| 0 <= j < start ==> whitespace_char(v[j]),
        decreases n - start,
    {
        start += 1;
    }
    let mut end: usize = n;
    while end > start && is_whitespace_char(v[end - 1])
        invariant
            n == v.len(),
            start <= end <= n,
            forall|j: int| end <= j < n ==> whitespace_char(v[j]),
        decreases end,
    {
        end -= 1;
    }
    let mut out: Vec<char> = Vec::new();
    let mut i: usize = start;
    while i < end
        invariant
            n == v.len(),
            start <= i <= end <= n,
            out@ == v@.subrange(start as int, i as int),
        decreases end - i,
    {
        out.push(v[i]);
        assert(v@.subrange(start as int, i + 1) == v@.subrange(start as int, i as int).push(
            v[i as int],
        ));
        i += 1;
    }
    proof {
        lemma_trim_start_skips(v@, start as int);
        let rest = v@.skip(start as int);
        assert forall|j: int| end - start <= j < rest.len() implies whitespace_char(rest[j]) by {
            assert(rest[j] == v@[j + start]);
        }
        if end > start {
            assert(rest[end - start - 1] == v@[end - 1]);
        }
        lemma_trim_end_takes(rest, end - start);
        assert(rest.take(end - start) == v@.subrange(start as int, end as int));
    }
    out
}

/// Cuts `v` down to its first `max` characters.
pub fn cap_chars(v: Vec<char>, max: usize) -> (r: Vec<char>)
    ensures
        r@ == capped(v@, max as nat),
{
    let mut out = v;
    if out.len() > max {
        out.truncate(max);
    }
    out
}

} // verus!
