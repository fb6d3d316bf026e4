//! Field names: which of them denote commentary, and how the path of a
//! field inside a document is written.

use vstd::prelude::*;
use crate::chars::{ascii_lower, to_ascii_lower};
use crate::integers::{all_digits, digits_value};
use crate::text::{chars_of, contains_chars, contains_text, same_chars, string_of};

verus! {

/// Whether a character separates the words of a field name.
pub open spec fn separator_char(c: char) -> bool {
    c == '-' || c == '_' || c == ' '
}

/// A field name in lower case and without hyphens, underscores and spaces.
pub open spec fn folded_key(key: Seq<char>) -> Seq<char> {
    key.map_values(|c: char| ascii_lower(c)).filter(|c: char| !separator_char(c))
}

/// Whether a field name denotes commentary: its folded form contains
/// `comment`, `kommentar` or `feedbacktext`, or is `feedback`, `message` or
/// `nachricht`.
pub open spec fn comment_field(key: Seq<char>) -> bool {
    let folded = folded_key(key);
    ||| contains_text(folded, "comment"@)
    ||| contains_text(folded, "kommentar"@)
    ||| contains_text(folded, "feedbacktext"@)
    ||| folded == "feedback"@
    ||| folded == "message"@
    ||| folded == "nachricht"@
}

/// Folds a field name.
pub fn fold_key(key: &str) -> (r: Vec<char>)
    ensures
        r@ == folded_key(key@),
{
    let chars = chars_of(key);
    let ghost lowered = key@.map_values(|c: char| ascii_lower(c));
    let mut out: Vec<char> = Vec::new();
    let n = chars.len();
    let mut i: usize = 0;
    proof {
        reveal(Seq::filter);
    }
    while i < n
        invariant
            n == chars.len(),
            chars@ == key@,
            lowered == key@.map_values(|c: char| ascii_lower(c)),
            i <= n,
            out@ == lowered.take(i as int).filter(|c: char| !separator_char(c)),
        decreases n - i,
    {
        proof {
            reveal(Seq::filter);
            assert(lowered.take(i + 1).drop_last() == lowered.take(i as int));
            assert(lowered.take(i + 1).last() == ascii_lower(chars[i as int]));
        }
        let c = to_ascii_lower(chars[i]);
        if !(c == '-' || c == '_' || c == ' ') {
            out.push(c);
        }
        i += 1;
    }
    assert(lowered.take(n as int) == lowered);
    out
}

/// Whether a field name denotes commentary.
pub fn is_comment_field(key: &str) -> (r: bool)
    ensures
        r == comment_field(key@),
{
    let folded = fold_key(key);
    contains_chars(&folded, &chars_of("comment")) || contains_chars(&folded, &chars_of("kommentar"))
        || contains_chars(&folded, &chars_of("feedbacktext")) || same_chars(
        &folded,
        &chars_of("feedback"),
    ) || same_chars(&folded, &chars_of("message")) || same_chars(&folded, &chars_of("nachricht"))
}

/// The path of the member `key` of the mapping at `path`.
pub open spec fn member_path(path: Seq<char>, key: Seq<char>) -> Seq<char> {
    if path.len() == 0 {
        key
    } else {
        path + seq!['.'] + key
    }
}

/// The decimal digit for a number below ten.
pub open spec fn digit_char(d: nat) -> char {
    (('0' as u8) + d) as char
}

/// The decimal notation of a number, without leading zeros.
pub open spec fn decimal(n: nat) -> Seq<char>
    decreases n,
{
    if n < 10 {
        seq![digit_char(n)]
    } else {
        decimal(n / 10).push(digit_char(n % 10))
    }
}

/// The path of the element at `index` of the sequence at `path`.
pub open spec fn element_path(path: Seq<char>, index: nat) -> Seq<char> {
    path + seq!['['] + decimal(index) + seq![']']
}

/// The path of the member `key` of the mapping at `path`: the key alone at
/// the root, else the two joined by a dot.
pub fn join_path(path: &str, key: &str) -> (r: String)
    ensures
        r@ == member_path(path@, key@),
{
    if path.unicode_len() == 0 {
        key.to_owned()
    } else {
        let mut out = chars_of(path);
        out.push('.');
        let mut rest = chars_of(key);
        out.append(&mut rest);
        string_of(&out)
    }
}

/// The decimal notation of `n`.
pub fn decimal_chars(n: usize) -> (r: Vec<char>)
    ensures
        r@ == decimal(n as nat),
    decreases n,
{
    if n < 10 {
        let d: u8 = n as u8;
        let mut out: Vec<char> = Vec::new();
        out.push((48u8 + d) as char);
        out
    } else {
        let mut out = decimal_chars(n / 10);
        let d: u8 = (n % 10) as u8;
        out.push((48u8 + d) as char);
        out
    }
}

/// The path of the element at `index` of the sequence at `path`.
pub fn index_path(path: &str, index: usize) -> (r: String)
    ensures
        r@ == element_path(path@, index as nat),
{
    let mut out = chars_of(path);
    out.push('[');
    let mut digits = decimal_chars(index);
    out.append(&mut digits);
    out.push(']');
    string_of(&out)
}

/// The decimal notation of a number consists of digits and denotes that
/// number.
pub proof fn lemma_decimal_denotes(n: nat)
    ensures
        all_digits(decimal(n)),
        digits_value(decimal(n)) == n,
    decreases n,
{
    let last = digit_char(n % 10);
    assert(last as u32 == 48 + n % 10);
    assert('0' as u32 == 48);
    if n < 10 {
        assert(decimal(n).drop_last() =~= Seq::<char>::empty());
        assert(decimal(n).last() == last);
        assert(digits_value(Seq::<char>::empty()) == 0);
    } else {
        lemma_decimal_denotes(n / 10);
        let head = decimal(n / 10);
        assert(decimal(n).drop_last() =~= head);
        assert(decimal(n).last() == last);
        assert forall|i: int| 0 <= i < decimal(n).len() implies '0' <= #[trigger] decimal(n)[i]
            <= '9' by {
            if i < head.len() {
                assert(decimal(n)[i] == head[i]);
            }
        }
    }
}

/// Siblings never share a path: two members of one mapping with different
/// keys have different paths, and so have two elements of one sequence.
pub proof fn lemma_sibling_paths_differ(
    path: Seq<char>,
    first_key: Seq<char>,
    second_key: Seq<char>,
    first_index: nat,
    second_index: nat,
)
    ensures
        first_key != second_key ==> member_path(path, first_key) != member_path(path, second_key),
        first_index != second_index ==> element_path(path, first_index) != element_path(
            path,
            second_index,
        ),
{
    if first_key != second_key && path.len() > 0 {
        let head = path + seq!['.'];
        let a = member_path(path, first_key);
        let b = member_path(path, second_key);
        assert(a.skip(head.len() as int) =~= first_key);
        assert(b.skip(head.len() as int) =~= second_key);
    }
    if first_index != second_index {
        let head = path + seq!['['];
        let a = element_path(path, first_index);
        let b = element_path(path, second_index);
        assert(a.skip(head.len() as int).drop_last() =~= decimal(first_index));
        assert(b.skip(head.len() as int).drop_last() =~= decimal(second_index));
        lemma_decimal_denotes(first_index);
        lemma_decimal_denotes(second_index);
    }
}

} // verus!
