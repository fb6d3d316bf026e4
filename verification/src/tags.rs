//! Sorted sets of reason tags.

use vstd::prelude::*;
use crate::text::{
    char_texts, chars_less, lemma_text_less_irreflexive, lemma_text_less_total,
    lemma_text_less_transitive, string_of, string_texts, text_less,
};

verus! {

/// Strictly increasing in lexicographic order: sorted, and nothing twice.
pub open spec fn ascending(s: Seq<Seq<char>>) -> bool {
    forall|i: int, j: int| 0 <= i < j < s.len() ==> text_less(#[trigger] s[i], #[trigger] s[j])
}

/// `s` with `tag` put in its place: after the tags that come before it and
/// before those that come after it. A tag that is already there is not
/// added again.
pub open spec fn insert_sorted(s: Seq<Seq<char>>, tag: Seq<char>) -> Seq<Seq<char>>
    decreases s.len(),
{
    if s.len() == 0 {
        seq![tag]
    } else if s.last() == tag {
        s
    } else if text_less(s.last(), tag) {
        s.push(tag)
    } else {
        insert_sorted(s.drop_last(), tag).push(s.last())
    }
}

/// After an insertion the sequence holds what it held before, and the tag.
pub proof fn lemma_insert_sorted_contains(s: Seq<Seq<char>>, tag: Seq<char>, t: Seq<char>)
    ensures
        insert_sorted(s, tag).contains(t) <==> (s.contains(t) || t == tag),
    decreases s.len(),
{
    let r = insert_sorted(s, tag);
    if s.len() == 0 {
        assert(r[0] == tag);
        if r.contains(t) {
            let k = choose|k: int| 0 <= k < r.len() && r[k] == t;
        }
    } else if s.last() == tag {
        assert(s[s.len() - 1] == tag);
    } else if text_less(s.last(), tag) {
        assert(r[s.len() as int] == tag);
        if r.contains(t) {
            let k = choose|k: int| 0 <= k < r.len() && r[k] == t;
            if k < s.len() {
                assert(s[k] == t);
            }
        }
        if s.contains(t) {
            let k = choose|k: int| 0 <= k < s.len() && s[k] == t;
            assert(r[k] == t);
        }
    } else {
        let head = s.drop_last();
        let inner = insert_sorted(head, tag);
        lemma_insert_sorted_contains(head, tag, t);
        assert(r[inner.len() as int] == s.last());
        if r.contains(t) {
            let k = choose|k: int| 0 <= k < r.len() && r[k] == t;
            if k < inner.len() {
                assert(inner[k] == t);
                if head.contains(t) {
                    let m = choose|m: int| 0 <= m < head.len() && head[m] == t;
                    assert(s[m] == t);
                }
            } else {
                assert(s[s.len() - 1] == t);
            }
        }
        if s.contains(t) {
            let k = choose|k: int| 0 <= k < s.len() && s[k] == t;
            if k < head.len() {
                assert(head[k] == t);
                let m = choose|m: int| 0 <= m < inner.len() && inner[m] == t;
                assert(r[m] == t);
            }
        }
        if t == tag {
            let m = choose|m: int| 0 <= m < inner.len() && inner[m] == t;
            assert(r[m] == t);
        }
    }
}

/// An insertion keeps a strictly increasing sequence strictly increasing.
pub proof fn lemma_insert_sorted_ascending(s: Seq<Seq<char>>, tag: Seq<char>)
    requires
        ascending(s),
    ensures
        ascending(insert_sorted(s, tag)),
    decreases s.len(),
{
    let r = insert_sorted(s, tag);
    if s.len() == 0 {
    } else if s.last() == tag {
    } else if text_less(s.last(), tag) {
        assert forall|i: int, j: int| 0 <= i < j < r.len() implies text_less(
            #[trigger] r[i],
            #[trigger] r[j],
        ) by {
            if j < s.len() {
                assert(text_less(s[i], s[j]));
            } else if i < s.len() - 1 {
                assert(text_less(s[i], s[s.len() - 1]));
                lemma_text_less_transitive(s[i], s.last(), tag);
            }
        }
    } else {
        let head = s.drop_last();
        let inner = insert_sorted(head, tag);
        assert(ascending(head)) by {
            assert forall|p: int, q: int| 0 <= p < q < head.len() implies text_less(
                #[trigger] head[p],
                #[trigger] head[q],
            ) by {
                assert(text_less(s[p], s[q]));
            }
        }
        lemma_insert_sorted_ascending(head, tag);
        lemma_text_less_total(s.last(), tag);
        assert forall|i: int, j: int| 0 <= i < j < r.len() implies text_less(
            #[trigger] r[i],
            #[trigger] r[j],
        ) by {
            if j < inner.len() {
                assert(text_less(inner[i], inner[j]));
            } else {
                lemma_insert_sorted_contains(head, tag, inner[i]);
                assert(inner.contains(inner[i]));
                if inner[i] != tag {
                    let m = choose|m: int| 0 <= m < head.len() && head[m] == inner[i];
                    assert(text_less(s[m], s[s.len() - 1]));
                }
            }
        }
    }
}

/// Where `tag` belongs at position `at` of a strictly increasing sequence,
/// inserting it puts it there.
proof fn lemma_insert_sorted_at(s: Seq<Seq<char>>, tag: Seq<char>, at: int)
    requires
        ascending(s),
        0 <= at <= s.len(),
        forall|k: int| 0 <= k < at ==> text_less(#[trigger] s[k], tag),
        at < s.len() ==> text_less(tag, s[at]),
    ensures
        insert_sorted(s, tag) == s.insert(at, tag),
    decreases s.len(),
{
    if s.len() == 0 {
        assert(s.insert(at, tag) =~= seq![tag]);
    } else if at == s.len() {
        lemma_text_less_irreflexive(tag);
        assert(text_less(s[s.len() - 1], tag));
        assert(s.insert(at, tag) =~= s.push(tag));
    } else {
        let last = s.last();
        if at < s.len() - 1 {
            assert(text_less(s[at], s[s.len() - 1]));
            lemma_text_less_transitive(tag, s[at], last);
        }
        assert(text_less(tag, last));
        if last == tag {
            lemma_text_less_irreflexive(tag);
        }
        if text_less(last, tag) {
            lemma_text_less_transitive(tag, last, tag);
            lemma_text_less_irreflexive(tag);
        }
        let head = s.drop_last();
        assert(ascending(head)) by {
            assert forall|p: int, q: int| 0 <= p < q < head.len() implies text_less(
                #[trigger] head[p],
                #[trigger] head[q],
            ) by {
                assert(text_less(s[p], s[q]));
            }
        }
        assert forall|k: int| 0 <= k < at implies text_less(#[trigger] head[k], tag) by {
            assert(head[k] == s[k]);
        }
        if at < head.len() {
            assert(head[at] == s[at]);
        }
        lemma_insert_sorted_at(head, tag, at);
        assert(head.insert(at, tag).push(last) =~= s.insert(at, tag));
    }
}

/// Inserting a tag that a strictly increasing sequence holds changes
/// nothing.
proof fn lemma_insert_sorted_present(s: Seq<Seq<char>>, tag: Seq<char>, at: int)
    requires
        ascending(s),
        0 <= at < s.len(),
        s[at] == tag,
    ensures
        insert_sorted(s, tag) == s,
    decreases s.len(),
{
    if at < s.len() - 1 {
        let last = s.last();
        assert(text_less(s[at], s[s.len() - 1]));
        if last == tag {
            lemma_text_less_irreflexive(tag);
        }
        if text_less(last, tag) {
            lemma_text_less_transitive(tag, last, tag);
            lemma_text_less_irreflexive(tag);
        }
        let head = s.drop_last();
        assert(ascending(head)) by {
            assert forall|p: int, q: int| 0 <= p < q < head.len() implies text_less(
                #[trigger] head[p],
                #[trigger] head[q],
            ) by {
                assert(text_less(s[p], s[q]));
            }
        }
        assert(head[at] == tag);
        lemma_insert_sorted_present(head, tag, at);
        assert(head.push(last) =~= s);
    }
}

/// A set of tags, kept in strictly increasing order.
pub struct TagSet {
    tags: Vec<Vec<char>>,
}

impl View for TagSet {
    type V = Seq<Seq<char>>;

    closed spec fn view(&self) -> Seq<Seq<char>> {
        char_texts(self.tags@)
    }
}

impl TagSet {
    #[verifier::type_invariant]
    spec fn kept_sorted(self) -> bool {
        ascending(char_texts(self.tags@))
    }

    /// Makes the order of the tags known to the caller's proof.
    pub fn sorted(&self)
        ensures
            ascending(self@),
    {
        proof {
            use_type_invariant(self);
        }
    }

    /// The empty set.
    pub fn new() -> (r: TagSet)
        ensures
            r@ == Seq::<Seq<char>>::empty(),
    {
        let r = TagSet { tags: Vec::new() };
        assert(r@ =~= Seq::empty());
        r
    }

    /// Adds `tag` to the set; a tag that is already there is not added
    /// again.
    pub fn insert(&mut self, tag: Vec<char>)
        ensures
            final(self)@ == insert_sorted(old(self)@, tag@),
    {
        proof {
            use_type_invariant(&*self);
        }
        let ghost before = char_texts(self.tags@);
        let n = self.tags.len();
        let mut at: usize = 0;
        while at < n && chars_less(&self.tags[at], &tag)
            invariant
                n == self.tags.len(),
                at <= n,
                before == char_texts(self.tags@),
                forall|k: int| 0 <= k < at ==> text_less(#[trigger] before[k], tag@),
            decreases n - at,
        {
            at += 1;
        }
        if at < n && !chars_less(&tag, &self.tags[at]) {
            proof {
                lemma_text_less_total(before[at as int], tag@);
                lemma_insert_sorted_present(before, tag@, at as int);
            }
            return ;
        }
        proof {
            lemma_insert_sorted_at(before, tag@, at as int);
            lemma_insert_sorted_ascending(before, tag@);
        }
        let mut tags: Vec<Vec<char>> = Vec::new();
        assert(ascending(char_texts(tags@)));
        core::mem::swap(&mut self.tags, &mut tags);
        tags.insert(at, tag);
        assert(char_texts(tags@) =~= before.insert(at as int, tag@));
        core::mem::swap(&mut self.tags, &mut tags);
    }

    /// The tags as strings, in increasing order.
    pub fn to_strings(&self) -> (r: Vec<String>)
        ensures
            string_texts(r@) == self@,
            ascending(self@),
    {
        proof {
            use_type_invariant(self);
        }
        let mut out: Vec<String> = Vec::new();
        let n = self.tags.len();
        let mut i: usize = 0;
        while i < n
            invariant
                n == self.tags.len(),
                i <= n,
                out.len() == i,
                forall|k: int| 0 <= k < i ==> (#[trigger] out[k])@ == self.tags[k]@,
            decreases n - i,
        {
            out.push(string_of(&self.tags[i]));
            i += 1;
        }
        assert(string_texts(out@) =~= char_texts(self.tags@));
        out
    }
}

} // verus!
