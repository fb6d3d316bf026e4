//! The rules for exporting sanitized documents: which documents are held
//! back, where a document says it belongs, and how its file is named.

use vstd::prelude::*;
use crate::config::{BLOCKED_COMMENT_TOKEN, EMPTY_COMMENT_TOKEN};
use crate::document::{get_member, get_member_text, member, member_text, Tree, Value};
use vstd::set_lib::{lemma_int_range, lemma_len_subset, set_int_range};
use crate::fields::{decimal, decimal_chars, lemma_decimal_denotes};
use crate::paths::{file_component, sanitize_file_component};
use crate::scrub::{trim, trim_chars};
use crate::text::{
    chars_less, chars_of, has_prefix, lemma_text_less_irreflexive, lemma_text_less_transitive,
    same_chars, same_text, starts_with_chars, string_of, string_texts, text_less,
};

verus! {

/// Whether a document is held back from export: it has a blocked field, or
/// its comment, without surrounding whitespace, is blank, the block token
/// or the empty token.
pub open spec fn held_back(blocked_fields: nat, comment: Seq<char>) -> bool {
    ||| blocked_fields > 0
    ||| trim(comment).len() == 0
    ||| trim(comment) == BLOCKED_COMMENT_TOKEN@
    ||| trim(comment) == EMPTY_COMMENT_TOKEN@
}

/// The comment of a document: the text of its member `comment`, or nothing
/// where it has no such string.
pub open spec fn comment_of(data: Tree) -> Seq<char> {
    match member_text(data, "comment"@) {
        Some(text) => text,
        None => Seq::empty(),
    }
}

/// Whether a document with the given number of blocked fields and the given
/// comment is held back from export.
pub fn is_held_back(blocked_fields: u64, comment: &str) -> (r: bool)
    ensures
        r == held_back(blocked_fields as nat, comment@),
{
    if blocked_fields > 0 {
        return true;
    }
    let trimmed = trim_chars(&chars_of(comment));
    trimmed.len() == 0 || same_chars(&trimmed, &chars_of(BLOCKED_COMMENT_TOKEN)) || same_chars(
        &trimmed,
        &chars_of(EMPTY_COMMENT_TOKEN),
    )
}

/// Whether a sanitized document is held back from export. A document whose
/// data is no mapping is held back.
pub fn document_held_back(data: &Value, blocked_fields: u64) -> (r: bool)
    ensures
        r == (!(data@ is Record) || held_back(blocked_fields as nat, comment_of(data@))),
{
    match data {
        Value::Object(_) => match get_member_text(data, "comment") {
            Some(comment) => is_held_back(blocked_fields, comment),
            None => {
                assert(trim(Seq::<char>::empty()).len() == 0);
                true
            },
        },
        _ => true,
    }
}

/// The prefix by which a learning folder is known.
pub open spec fn learning_folder_prefix() -> Seq<char> {
    "__04_lernings_"@
}

/// Whether a directory name is that of a learning folder.
pub fn is_learning_folder_name(name: &str) -> (r: bool)
    ensures
        r == has_prefix(name@, learning_folder_prefix()),
{
    starts_with_chars(&chars_of(name), &chars_of("__04_lernings_"))
}

/// Whether `names[i]` is a learning folder, the least of those in `names`
/// and the first of its name.
pub open spec fn least_learning_folder(names: Seq<Seq<char>>, i: int) -> bool {
    &&& 0 <= i < names.len()
    &&& has_prefix(names[i], learning_folder_prefix())
    &&& forall|j: int|
        0 <= j < names.len() && has_prefix(#[trigger] names[j], learning_folder_prefix())
            ==> !text_less(names[j], names[i])
    &&& forall|j: int| 0 <= j < i ==> #[trigger] names[j] != names[i]
}

/// Among the names of the directories of one folder, the position of the
/// learning folder that comes first in lexicographic order; `None` where
/// none of them is a learning folder.
pub fn pick_learning_folder(names: &Vec<String>) -> (r: Option<usize>)
    ensures
        match r {
            Some(i) => least_learning_folder(string_texts(names@), i as int),
            None => forall|j: int|
                0 <= j < names.len() ==> !has_prefix(
                    #[trigger] string_texts(names@)[j],
                    learning_folder_prefix(),
                ),
        },
{
    let ghost texts = string_texts(names@);
    let n = names.len();
    let mut best: Option<usize> = None;
    let mut best_chars: Vec<char> = Vec::new();
    let mut i: usize = 0;
    while i < n
        invariant
            n == names.len(),
            texts == string_texts(names@),
            i <= n,
            match best {
                Some(b) => b < i && best_chars@ == texts[b as int] && least_learning_folder(
                    texts.take(i as int),
                    b as int,
                ),
                None => forall|j: int|
                    0 <= j < i ==> !has_prefix(#[trigger] texts[j], learning_folder_prefix()),
            },
        decreases n - i,
    {
        let ghost seen = texts.take(i as int);
        let ghost next = texts.take(i + 1);
        let chars = chars_of(names[i].as_str());
        assert(chars@ == texts[i as int]);
        let is_folder = starts_with_chars(&chars, &chars_of("__04_lernings_"));
        let better = is_folder && match best {
            Some(_) => chars_less(&chars, &best_chars),
            None => true,
        };
        proof {
            match best {
                Some(b) => {
                    if better {
                        assert forall|j: int|
                            0 <= j < next.len() && has_prefix(
                                #[trigger] next[j],
                                learning_folder_prefix(),
                            ) implies !text_less(next[j], next[i as int]) by {
                            if j < i {
                                assert(seen[j] == next[j]);
                                assert(!text_less(seen[j], seen[b as int]));
                                if text_less(next[j], chars@) {
                                    lemma_text_less_transitive(next[j], chars@, seen[b as int]);
                                }
                            } else {
                                lemma_text_less_irreflexive(chars@);
                            }
                        }
                        assert forall|j: int| 0 <= j < i implies #[trigger] next[j]
                            != next[i as int] by {
                            if next[j] == chars@ {
                                assert(seen[j] == next[j]);
                                assert(has_prefix(seen[j], learning_folder_prefix()));
                                assert(!text_less(seen[j], seen[b as int]));
                            }
                        }
                    } else {
                        assert forall|j: int|
                            0 <= j < next.len() && has_prefix(
                                #[trigger] next[j],
                                learning_folder_prefix(),
                            ) implies !text_less(next[j], next[b as int]) by {
                            if j < i {
                                assert(seen[j] == next[j]);
                                assert(!text_less(seen[j], seen[b as int]));
                            }
                        }
                        assert forall|j: int| 0 <= j < b implies #[trigger] next[j]
                            != next[b as int] by {
                            assert(seen[j] == next[j]);
                        }
                    }
                },
                None => {
                    if better {
                        assert forall|j: int|
                            0 <= j < next.len() && has_prefix(
                                #[trigger] next[j],
                                learning_folder_prefix(),
                            ) implies !text_less(next[j], next[i as int]) by {
                            if j < i {
                                assert(texts[j] == next[j]);
                            } else {
                                lemma_text_less_irreflexive(chars@);
                            }
                        }
                        assert forall|j: int| 0 <= j < i implies #[trigger] next[j]
                            != next[i as int] by {
                            assert(texts[j] == next[j]);
                        }
                    }
                },
            }
        }
        if better {
            best = Some(i);
            best_chars = chars;
        }
        i += 1;
    }
    assert(texts.take(n as int) == texts);
    best
}

/// Whether a candidate path stands for the folder that holds it: it names
/// a file, or it does not exist and has a file extension.
pub fn resolves_to_parent(exists: bool, has_extension: bool, is_file: bool) -> (r: bool)
    ensures
        r == ((!exists && has_extension) || (exists && is_file)),
{
    if !exists && has_extension {
        true
    } else {
        exists && is_file
    }
}

/// The name under which a document is known in file names: its identifier
/// without surrounding whitespace, or `unknown` where that is blank, made
/// into a file-name component.
pub open spec fn export_stem(doc_id: Seq<char>) -> Seq<char> {
    if trim(doc_id).len() == 0 {
        file_component("unknown"@)
    } else {
        file_component(trim(doc_id))
    }
}

/// The name of the file to which a document is exported. The first attempt
/// has no number; attempt `n`, from the second on, is numbered `n`.
pub open spec fn export_name(doc_id: Seq<char>, attempt: nat) -> Seq<char> {
    if attempt < 2 {
        "feedback_"@ + export_stem(doc_id) + ".json"@
    } else {
        "feedback_"@ + export_stem(doc_id) + "_"@ + decimal(attempt) + ".json"@
    }
}

/// The name of the file to which a document is exported at the given
/// attempt.
pub fn export_file_name(doc_id: &str, attempt: usize) -> (r: String)
    ensures
        r@ == export_name(doc_id@, attempt as nat),
{
    let trimmed = trim_chars(&chars_of(doc_id));
    let stem = if trimmed.len() == 0 {
        sanitize_file_component("unknown")
    } else {
        sanitize_file_component(string_of(&trimmed).as_str())
    };
    let mut out = chars_of("feedback_");
    let mut stem_chars = chars_of(stem.as_str());
    out.append(&mut stem_chars);
    if attempt >= 2 {
        let mut sep = chars_of("_");
        out.append(&mut sep);
        let mut digits = decimal_chars(attempt);
        out.append(&mut digits);
    }
    let mut ext = chars_of(".json");
    out.append(&mut ext);
    string_of(&out)
}

/// The position of `name` in `names`, where it is among them.
fn position_of(names: &Vec<String>, name: &str) -> (r: Option<usize>)
    ensures
        match r {
            Some(at) => at < names.len() && names[at as int]@ == name@,
            None => !string_texts(names@).contains(name@),
        },
{
    let n = names.len();
    let mut i: usize = 0;
    while i < n
        invariant
            n == names.len(),
            i <= n,
            forall|k: int| 0 <= k < i ==> string_texts(names@)[k] != name@,
        decreases n - i,
    {
        if same_text(names[i].as_str(), name) {
            return Some(i);
        }
        i += 1;
    }
    None
}

/// Whether every attempt from the first to the `count`-th has its name
/// among `used`.
pub open spec fn attempts_taken(doc_id: Seq<char>, used: Seq<Seq<char>>, count: nat) -> bool {
    forall|n: nat| 1 <= n <= count ==> used.contains(#[trigger] export_name(doc_id, n))
}

/// Different attempts have different names.
pub proof fn lemma_export_names_differ(doc_id: Seq<char>, first: nat, second: nat)
    requires
        1 <= first < second,
    ensures
        export_name(doc_id, first) != export_name(doc_id, second),
{
    reveal_strlit(".json");
    reveal_strlit("_");
    let head = "feedback_"@ + export_stem(doc_id);
    let a = export_name(doc_id, first);
    let b = export_name(doc_id, second);
    let at = head.len() as int;
    if first < 2 {
        assert(a[at] == '.');
        assert(b[at] == '_');
    } else {
        lemma_decimal_denotes(first);
        lemma_decimal_denotes(second);
        assert(a.subrange(at + 1, a.len() - 5) =~= decimal(first));
        assert(b.subrange(at + 1, b.len() - 5) =~= decimal(second));
    }
}

/// The positions in `used` that hold the name of one of the first `count`
/// attempts.
spec fn taken_positions(doc_id: Seq<char>, used: Seq<Seq<char>>, count: nat) -> Set<int> {
    Set::new(
        |i: int|
            0 <= i < used.len() && exists|n: nat|
                1 <= n <= count && used[i] == #[trigger] export_name(doc_id, n),
    )
}

/// A list that holds the names of the first `count` attempts has at least
/// `count` entries.
pub proof fn lemma_taken_attempts_fill_the_list(
    doc_id: Seq<char>,
    used: Seq<Seq<char>>,
    count: nat,
)
    requires
        attempts_taken(doc_id, used, count),
    ensures
        used.len() >= count,
{
    lemma_taken_positions_count(doc_id, used, count);
    lemma_int_range(0, used.len() as int);
    lemma_len_subset(taken_positions(doc_id, used, count), set_int_range(0, used.len() as int));
}

proof fn lemma_taken_positions_count(doc_id: Seq<char>, used: Seq<Seq<char>>, count: nat)
    requires
        attempts_taken(doc_id, used, count),
    ensures
        taken_positions(doc_id, used, count).finite(),
        taken_positions(doc_id, used, count).len() >= count,
    decreases count,
{
    let all = taken_positions(doc_id, used, count);
    lemma_int_range(0, used.len() as int);
    assert(all.subset_of(set_int_range(0, used.len() as int)));
    lemma_len_subset(all, set_int_range(0, used.len() as int));
    if count > 0 {
        let fewer = taken_positions(doc_id, used, (count - 1) as nat);
        assert(attempts_taken(doc_id, used, (count - 1) as nat)) by {
            assert forall|n: nat| 1 <= n <= count - 1 implies used.contains(
                #[trigger] export_name(doc_id, n),
            ) by {}
        }
        lemma_taken_positions_count(doc_id, used, (count - 1) as nat);
        let name = export_name(doc_id, count);
        assert(used.contains(name));
        let at = choose|i: int| 0 <= i < used.len() && used[i] == name;
        assert(all.contains(at));
        assert(!fewer.contains(at)) by {
            if fewer.contains(at) {
                let n = choose|n: nat|
                    1 <= n <= count - 1 && used[at] == #[trigger] export_name(doc_id, n);
                lemma_export_names_differ(doc_id, n, count);
            }
        }
        assert(fewer.insert(at).subset_of(all)) by {
            assert forall|i: int| fewer.insert(at).contains(i) implies all.contains(i) by {
                if fewer.contains(i) {
                    let n = choose|n: nat|
                        1 <= n <= count - 1 && used[i] == #[trigger] export_name(doc_id, n);
                    assert(1 <= n <= count);
                }
            }
        }
        lemma_len_subset(fewer.insert(at), all);
    }
}

/// The first attempt whose name is not among `used`, with its name;
/// `None` where every attempt that can be numbered is taken, which takes a
/// list as long as the address space.
pub fn free_export_name(doc_id: &str, used: &Vec<String>) -> (r: Option<(String, usize)>)
    ensures
        match r {
            Some((name, attempt)) => {
                &&& attempt >= 1
                &&& name@ == export_name(doc_id@, attempt as nat)
                &&& !string_texts(used@).contains(name@)
                &&& attempts_taken(doc_id@, string_texts(used@), (attempt - 1) as nat)
            },
            None => attempts_taken(doc_id@, string_texts(used@), usize::MAX as nat),
        },
        used.len() < usize::MAX ==> r is Some,
{
    let ghost taken = string_texts(used@);
    let mut attempt: usize = 1;
    loop
        invariant
            attempt >= 1,
            taken == string_texts(used@),
            attempts_taken(doc_id@, taken, (attempt - 1) as nat),
        decreases usize::MAX - attempt,
    {
        let name = export_file_name(doc_id, attempt);
        match position_of(used, name.as_str()) {
            None => {
                return Some((name, attempt));
            },
            Some(at) => {
                proof {
                    assert(taken[at as int] == export_name(doc_id@, attempt as nat));
                    assert(attempts_taken(doc_id@, taken, attempt as nat)) by {
                        assert forall|n: nat| 1 <= n <= attempt implies taken.contains(
                            #[trigger] export_name(doc_id@, n),
                        ) by {
                            if n == attempt {
                                assert(taken.contains(taken[at as int]));
                            }
                        }
                    }
                    lemma_taken_attempts_fill_the_list(doc_id@, taken, attempt as nat);
                }
                if attempt == usize::MAX {
                    return None;
                }
                attempt += 1;
            },
        }
    }
}

/// The candidate paths after the member `key` of `source` was considered:
/// its text, without surrounding whitespace, is added where it is a string
/// that is not blank.
pub open spec fn with_candidate(
    candidates: Seq<Seq<char>>,
    source: Tree,
    key: Seq<char>,
) -> Seq<Seq<char>> {
    match member_text(source, key) {
        Some(text) => if trim(text).len() > 0 {
            candidates.push(trim(text))
        } else {
            candidates
        },
        None => candidates,
    }
}

/// The candidate paths that the three path members of `source` add.
pub open spec fn with_path_candidates(candidates: Seq<Seq<char>>, source: Tree) -> Seq<
    Seq<char>,
> {
    with_candidate(
        with_candidate(with_candidate(candidates, source, "folderPath"@), source, "gamePath"@),
        source,
        "jsonPath"@,
    )
}

/// The paths at which a document says it belongs, in the order in which
/// they are tried: those of its member `context`, where that is a mapping,
/// then its own.
pub open spec fn folder_candidates(data: Tree) -> Seq<Seq<char>> {
    let from_context = match member(data, "context"@) {
        Some(context) => if context is Record {
            with_path_candidates(Seq::empty(), context)
        } else {
            Seq::empty()
        },
        None => Seq::empty(),
    };
    with_path_candidates(from_context, data)
}

/// Adds the member `key` of `source` to the candidate paths, where it is a
/// string that is not blank.
pub fn push_candidate_path(source: &Value, key: &str, out: &mut Vec<String>)
    ensures
        string_texts(final(out)@) == with_candidate(string_texts(old(out)@), source@, key@),
{
    match get_member_text(source, key) {
        Some(text) => {
            let trimmed = trim_chars(&chars_of(text));
            if trimmed.len() > 0 {
                out.push(string_of(&trimmed));
                assert(string_texts(out@) =~= string_texts(old(out)@).push(trimmed@));
            }
        },
        None => {},
    }
}

fn push_path_candidates(source: &Value, out: &mut Vec<String>)
    ensures
        string_texts(final(out)@) == with_path_candidates(string_texts(old(out)@), source@),
{
    push_candidate_path(source, "folderPath", out);
    push_candidate_path(source, "gamePath", out);
    push_candidate_path(source, "jsonPath", out);
}

/// The paths at which a document says it belongs, in the order in which
/// they are tried.
pub fn folder_candidate_paths(data: &Value) -> (r: Vec<String>)
    ensures
        string_texts(r@) == folder_candidates(data@),
{
    let mut out: Vec<String> = Vec::new();
    assert(string_texts(out@) =~= Seq::empty());
    match get_member(data, "context") {
        Some(context) => match context {
            Value::Object(_) => {
                push_path_candidates(context, &mut out);
            },
            _ => {},
        },
        None => {},
    }
    push_path_candidates(data, &mut out);
    out
}

} // verus!
