//! Listings: lines of text in lexicographic order.

use vstd::prelude::*;
use crate::text::{
    char_texts, chars_less, chars_of, lemma_text_less_irreflexive, lemma_text_less_total,
    lemma_text_less_transitive, string_of, string_texts, text_less,
};

verus! {

/// No line comes before the one in front of it.
pub open spec fn ordered(s: Seq<Seq<char>>) -> bool {
    forall|i: int, j: int| 0 <= i < j < s.len() ==> !text_less(#[trigger] s[j], #[trigger] s[i])
}

/// `s` with `line` put behind the last line that does not come after it.
pub open spec fn insert_ordered(s: Seq<Seq<char>>, line: Seq<char>) -> Seq<Seq<char>>
    decreases s.len(),
{
    if s.len() > 0 && text_less(line, s.last()) {
        insert_ordered(s.drop_last(), line).push(s.last())
    } else {
        s.push(line)
    }
}

/// The lines in lexicographic order; equal lines stay in the order in which
/// they came.
pub open spec fn sorted_lines(lines: Seq<Seq<char>>) -> Seq<Seq<char>>
    decreases lines.len(),
{
    if lines.len() == 0 {
        lines
    } else {
        insert_ordered(sorted_lines(lines.drop_last()), lines.last())
    }
}

/// The lines one after the other, each followed by a line feed.
pub open spec fn joined_lines(lines: Seq<Seq<char>>) -> Seq<char>
    decreases lines.len(),
{
    if lines.len() == 0 {
        Seq::empty()
    } else {
        joined_lines(lines.drop_last()) + lines.last() + seq!['\n']
    }
}

/// The text of a listing: its lines in lexicographic order, each followed
/// by a line feed; nothing for no lines.
pub open spec fn listing_text(lines: Seq<Seq<char>>) -> Seq<char> {
    joined_lines(sorted_lines(lines))
}

proof fn lemma_insert_ordered_at(s: Seq<Seq<char>>, line: Seq<char>, at: int)
    requires
        0 <= at <= s.len(),
        forall|k: int| at <= k < s.len() ==> text_less(line, #[trigger] s[k]),
        at > 0 ==> !text_less(line, s[at - 1]),
    ensures
        insert_ordered(s, line) == s.insert(at, line),
    decreases s.len() - at,
{
    if at == s.len() {
        assert(s.insert(at, line) =~= s.push(line));
    } else {
        assert(text_less(line, s[s.len() - 1]));
        let head = s.drop_last();
        assert forall|k: int| at <= k < head.len() implies text_less(line, #[trigger] head[k]) by {
            assert(head[k] == s[k]);
        }
        if at > 0 {
            assert(head[at - 1] == s[at - 1]);
        }
        lemma_insert_ordered_at(head, line, at);
        assert(head.insert(at, line).push(s.last()) =~= s.insert(at, line));
    }
}

/// Inserting a line keeps the lines in order and adds the line, nothing
/// else.
pub proof fn lemma_insert_ordered(s: Seq<Seq<char>>, line: Seq<char>)
    requires
        ordered(s),
    ensures
        ordered(insert_ordered(s, line)),
        insert_ordered(s, line).to_multiset() == s.to_multiset().insert(line),
    decreases s.len(),
{
    broadcast use vstd::seq_lib::group_to_multiset_ensures;

    let r = insert_ordered(s, line);
    if s.len() > 0 && text_less(line, s.last()) {
        let head = s.drop_last();
        let inner = insert_ordered(head, line);
        assert(ordered(head)) by {
            assert forall|i: int, j: int| 0 <= i < j < head.len() implies !text_less(
                #[trigger] head[j],
                #[trigger] head[i],
            ) by {
                assert(!text_less(s[j], s[i]));
            }
        }
        lemma_insert_ordered(head, line);
        assert(s =~= head.push(s.last()));
        assert forall|i: int, j: int| 0 <= i < j < r.len() implies !text_less(
            #[trigger] r[j],
            #[trigger] r[i],
        ) by {
            if j < inner.len() {
                assert(!text_less(inner[j], inner[i]));
            } else {
                assert(r[j] == s.last());
                assert(r[i] == inner[i]);
                assert(inner.to_multiset().count(inner[i]) > 0);
                if inner[i] == line {
                    if text_less(s.last(), line) {
                        lemma_text_less_transitive(line, s.last(), line);
                        lemma_text_less_irreflexive(line);
                    }
                } else {
                    assert(head.to_multiset().count(inner[i]) > 0);
                    assert(head.contains(inner[i]));
                    let m = choose|m: int| 0 <= m < head.len() && head[m] == inner[i];
                    assert(!text_less(s[s.len() - 1], s[m]));
                }
            }
        }
        assert(r.to_multiset() =~= s.to_multiset().insert(line));
    } else {
        assert forall|i: int, j: int| 0 <= i < j < r.len() implies !text_less(
            #[trigger] r[j],
            #[trigger] r[i],
        ) by {
            if j < s.len() {
                assert(!text_less(s[j], s[i]));
            } else if i < s.len() - 1 {
                assert(!text_less(s[s.len() - 1], s[i]));
                if text_less(line, s[i]) {
                    lemma_text_less_total(s.last(), s[i]);
                    if text_less(s[i], s.last()) {
                        lemma_text_less_transitive(line, s[i], s.last());
                    }
                }
            }
        }
    }
}

/// Sorting puts the lines in order and keeps every line as often as it
/// came.
pub proof fn lemma_sorted_lines(lines: Seq<Seq<char>>)
    ensures
        ordered(sorted_lines(lines)),
        sorted_lines(lines).to_multiset() == lines.to_multiset(),
        sorted_lines(lines).len() == lines.len(),
    decreases lines.len(),
{
    broadcast use vstd::seq_lib::group_to_multiset_ensures;

    if lines.len() > 0 {
        let head = lines.drop_last();
        lemma_sorted_lines(head);
        lemma_insert_ordered(sorted_lines(head), lines.last());
        assert(lines =~= head.push(lines.last()));
        sorted_lines(lines).to_multiset_ensures();
        lines.to_multiset_ensures();
    }
}

fn insert_line(sorted: &mut Vec<Vec<char>>, line: Vec<char>)
    ensures
        char_texts(final(sorted)@) == insert_ordered(char_texts(old(sorted)@), line@),
{
    let ghost before = char_texts(sorted@);
    let mut at: usize = sorted.len();
    while at > 0 && chars_less(&line, &sorted[at - 1])
        invariant
            at <= sorted.len(),
            before == char_texts(sorted@),
            forall|k: int| at <= k < sorted.len() ==> text_less(line@, #[trigger] before[k]),
        decreases at,
    {
        at -= 1;
    }
    proof {
        lemma_insert_ordered_at(before, line@, at as int);
    }
    sorted.insert(at, line);
    assert(char_texts(sorted@) =~= before.insert(at as int, line@));
}

/// The text of a listing of `lines`.
pub fn listing(lines: &Vec<String>) -> (r: String)
    ensures
        r@ == listing_text(string_texts(lines@)),
{
    let ghost texts = string_texts(lines@);
    let n = lines.len();
    let mut sorted: Vec<Vec<char>> = Vec::new();
    let mut i: usize = 0;
    assert(char_texts(sorted@) =~= sorted_lines(texts.take(0)));
    while i < n
        invariant
            n == lines.len(),
            texts == string_texts(lines@),
            i <= n,
            char_texts(sorted@) == sorted_lines(texts.take(i as int)),
        decreases n - i,
    {
        proof {
            assert(texts.take(i + 1).drop_last() == texts.take(i as int));
            assert(texts.take(i + 1).last() == lines[i as int]@);
        }
        insert_line(&mut sorted, chars_of(lines[i].as_str()));
        i += 1;
    }
    assert(texts.take(n as int) == texts);
    let ghost ordered_texts = char_texts(sorted@);
    let m = sorted.len();
    let mut out: Vec<char> = Vec::new();
    let mut k: usize = 0;
    while k < m
        invariant
            m == sorted.len(),
            ordered_texts == char_texts(sorted@),
            k <= m,
            out@ == joined_lines(ordered_texts.take(k as int)),
        decreases m - k,
    {
        proof {
            assert(ordered_texts.take(k + 1).drop_last() == ordered_texts.take(k as int));
            assert(ordered_texts.take(k + 1).last() == sorted[k as int]@);
        }
        let mut line = sorted[k].clone();
        assert(line@ == sorted[k as int]@);
        out.append(&mut line);
        out.push('\n');
        k += 1;
    }
    assert(ordered_texts.take(m as int) == ordered_texts);
    string_of(&out)
}

} // verus!
