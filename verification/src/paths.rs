//! Names and paths of exported files.

use std::path::Path;
use vstd::prelude::*;
use crate::chars::{ascii_alphanumeric_char, is_ascii_alphanumeric_char};
use crate::scrub::{trim, trim_chars};
use crate::text::{chars_of, contains_chars, contains_text, string_of};

verus! {

/// Calls `Path::is_absolute`. What counts as absolute depends on the
/// platform, so nothing is claimed of the answer.
#[verifier::external_body]
fn path_is_absolute(path: &str) -> bool {
    Path::new(path).is_absolute()
}

/// Calls `Path::strip_prefix` and hands back what is left of `path` below
/// `base`, or `None` where `base` is no prefix of it. Paths are compared
/// component by component in a way that depends on the platform, so nothing
/// is claimed of the answer.
#[verifier::external_body]
fn strip_path_prefix(path: &str, base: &str) -> Option<String> {
    match Path::new(path).strip_prefix(Path::new(base)) {
        Ok(rest) => Some(rest.to_string_lossy().into_owned()),
        Err(_) => None,
    }
}

/// A character that may stand in a file name as it is.
pub open spec fn file_name_char(c: char) -> bool {
    ascii_alphanumeric_char(c) || c == '-' || c == '_'
}

/// `s` without the leading characters equal to `c`.
pub open spec fn strip_leading(s: Seq<char>, c: char) -> Seq<char>
    decreases s.len(),
{
    if s.len() > 0 && s[0] == c {
        strip_leading(s.drop_first(), c)
    } else {
        s
    }
}

/// `s` without the trailing characters equal to `c`.
pub open spec fn strip_trailing(s: Seq<char>, c: char) -> Seq<char>
    decreases s.len(),
{
    if s.len() > 0 && s.last() == c {
        strip_trailing(s.drop_last(), c)
    } else {
        s
    }
}

/// The file-name component made from `input`: every character that may not
/// stand in a file name becomes an underscore, underscores at both ends are
/// dropped, and `unknown` stands for an empty result.
pub open spec fn file_component(input: Seq<char>) -> Seq<char> {
    let mapped = input.map_values(
        |c: char|
            if file_name_char(c) {
                c
            } else {
                '_'
            },
    );
    let stripped = strip_trailing(strip_leading(mapped, '_'), '_');
    if stripped.len() == 0 {
        "unknown"@
    } else {
        stripped
    }
}

proof fn lemma_strip_leading_skips(s: Seq<char>, c: char, k: int)
    requires
        0 <= k <= s.len(),
        forall|j: int| 0 <= j < k ==> s[j] == c,
        k < s.len() ==> s[k] != c,
    ensures
        strip_leading(s, c) == s.skip(k),
    decreases k,
{
    if k == 0 {
        assert(s.skip(0) == s);
    } else {
        lemma_strip_leading_skips(s.drop_first(), c, k - 1);
        assert(s.drop_first().skip(k - 1) == s.skip(k));
    }
}

proof fn lemma_strip_trailing_takes(s: Seq<char>, c: char, k: int)
    requires
        0 <= k <= s.len(),
        forall|j: int| k <= j < s.len() ==> s[j] == c,
        k > 0 ==> s[k - 1] != c,
    ensures
        strip_trailing(s, c) == s.take(k),
    decreases s.len() - k,
{
    if k == s.len() {
        assert(s.take(k) == s);
    } else {
        lemma_strip_trailing_takes(s.drop_last(), c, k);
        assert(s.drop_last().take(k) == s.take(k));
    }
}

/// The characters of `v` from the first that differs from `c` on.
fn strip_leading_chars(v: &Vec<char>, c: char) -> (r: Vec<char>)
    ensures
        r@ == strip_leading(v@, c),
{
    let n = v.len();
    let mut start: usize = 0;
    while start < n && v[start] == c
        invariant
            n == v.len(),
            start <= n,
            forall|j: int| 0 <= j < start ==> v[j] == c,
        decreases n - start,
    {
        start += 1;
    }
    let mut out: Vec<char> = Vec::new();
    let mut i: usize = start;
    while i < n
        invariant
            n == v.len(),
            start <= i <= n,
            out@ == v@.subrange(start as int, i as int),
        decreases n - i,
    {
        out.push(v[i]);
        assert(v@.subrange(start as int, i + 1) == v@.subrange(start as int, i as int).push(
            v[i as int],
        ));
        i += 1;
    }
    proof {
        lemma_strip_leading_skips(v@, c, start as int);
        assert(v@.skip(start as int) == v@.subrange(start as int, n as int));
    }
    out
}

/// Drops from `v` its trailing characters equal to `c`.
fn strip_trailing_chars(v: Vec<char>, c: char) -> (r: Vec<char>)
    ensures
        r@ == strip_trailing(v@, c),
{
    let mut out = v;
    let mut end: usize = out.len();
    while end > 0 && out[end - 1] == c
        invariant
            out@ == v@,
            end <= out.len(),
            forall|j: int| end <= j < out.len() ==> out[j] == c,
        decreases end,
    {
        end -= 1;
    }
    proof {
        lemma_strip_trailing_takes(v@, c, end as int);
    }
    out.truncate(end);
    out
}

/// Makes a file-name component from `input`.
pub fn sanitize_file_component(input: &str) -> (r: String)
    ensures
        r@ == file_component(input@),
{
    let chars = chars_of(input);
    let ghost mapped = input@.map_values(
        |c: char|
            if file_name_char(c) {
                c
            } else {
                '_'
            },
    );
    let mut out: Vec<char> = Vec::new();
    let n = chars.len();
    let mut i: usize = 0;
    while i < n
        invariant
            n == chars.len(),
            chars@ == input@,
            mapped.len() == n,
            forall|j: int|
                0 <= j < n ==> mapped[j] == (if file_name_char(chars[j]) {
                    chars[j]
                } else {
                    '_'
                }),
            i <= n,
            out@ == mapped.take(i as int),
        decreases n - i,
    {
        let c = chars[i];
        if is_ascii_alphanumeric_char(c) || c == '-' || c == '_' {
            out.push(c);
        } else {
            out.push('_');
        }
        assert(mapped.take(i + 1) == mapped.take(i as int).push(mapped[i as int]));
        i += 1;
    }
    assert(mapped.take(n as int) == mapped);
    let stripped = strip_trailing_chars(strip_leading_chars(&out, '_'), '_');
    if stripped.len() == 0 {
        "unknown".to_owned()
    } else {
        string_of(&stripped)
    }
}

/// What follows the last slash of `name`; all of `name` where it has none.
pub open spec fn last_segment(name: Seq<char>) -> Seq<char>
    decreases name.len(),
{
    if name.len() == 0 || name.last() == '/' {
        Seq::empty()
    } else {
        last_segment(name.drop_last()).push(name.last())
    }
}

proof fn lemma_last_segment_from(name: Seq<char>, k: int)
    requires
        0 <= k <= name.len(),
        forall|j: int| k <= j < name.len() ==> name[j] != '/',
        k > 0 ==> name[k - 1] == '/',
    ensures
        last_segment(name) == name.skip(k),
    decreases name.len() - k,
{
    if k == name.len() {
        assert(name.skip(k) =~= Seq::empty());
    } else {
        lemma_last_segment_from(name.drop_last(), k);
        assert(name.drop_last().skip(k).push(name.last()) =~= name.skip(k));
    }
}

/// The identifier of a document: the last segment of its resource name.
pub fn extract_document_id(full_name: &str) -> (r: String)
    ensures
        r@ == last_segment(full_name@),
{
    let chars = chars_of(full_name);
    let n = chars.len();
    let mut start: usize = n;
    while start > 0 && chars[start - 1] != '/'
        invariant
            n == chars.len(),
            start <= n,
            forall|j: int| start <= j < n ==> chars[j] != '/',
        decreases start,
    {
        start -= 1;
    }
    let mut out: Vec<char> = Vec::new();
    let mut i: usize = start;
    while i < n
        invariant
            n == chars.len(),
            start <= i <= n,
            out@ == chars@.subrange(start as int, i as int),
        decreases n - i,
    {
        out.push(chars[i]);
        assert(chars@.subrange(start as int, i + 1) == chars@.subrange(
            start as int,
            i as int,
        ).push(chars[i as int]));
        i += 1;
    }
    proof {
        lemma_last_segment_from(chars@, start as int);
        assert(chars@.skip(start as int) == chars@.subrange(start as int, n as int));
    }
    string_of(&out)
}

/// `path` with every backslash turned into a slash.
pub open spec fn with_slashes(path: Seq<char>) -> Seq<char> {
    path.map_values(
        |c: char|
            if c == '\\' {
                '/'
            } else {
                c
            },
    )
}

/// Turns every backslash of `path` into a slash.
pub fn slashed(path: &Vec<char>) -> (r: Vec<char>)
    ensures
        r@ == with_slashes(path@),
{
    let mut out: Vec<char> = Vec::new();
    let n = path.len();
    let mut i: usize = 0;
    while i < n
        invariant
            n == path.len(),
            i <= n,
            out@ == with_slashes(path@).take(i as int),
        decreases n - i,
    {
        let c = path[i];
        if c == '\\' {
            out.push('/');
        } else {
            out.push(c);
        }
        assert(with_slashes(path@).take(i + 1) == with_slashes(path@).take(i as int).push(
            with_slashes(path@)[i as int],
        ));
        i += 1;
    }
    assert(with_slashes(path@).take(n as int) == with_slashes(path@));
    out
}

/// Whether a candidate path is refused: it is blank, or it names a URL.
pub open spec fn candidate_refused(candidate: Seq<char>) -> bool {
    trim(candidate).len() == 0 || contains_text(trim(candidate), "://"@)
}

/// A candidate path without surrounding whitespace and with slashes for
/// backslashes.
pub open spec fn candidate_cleaned(candidate: Seq<char>) -> Seq<char> {
    with_slashes(trim(candidate))
}

/// The repository path that a candidate stands for, given whether its
/// cleaned form is an absolute path: an absolute path is kept, a relative
/// one loses its leading slashes.
pub open spec fn candidate_path(candidate: Seq<char>, absolute: bool) -> Seq<char> {
    if absolute {
        candidate_cleaned(candidate)
    } else {
        strip_leading(candidate_cleaned(candidate), '/')
    }
}

/// Cleans a candidate path; `None` where the candidate is refused.
pub fn clean_candidate_path(candidate: &str) -> (r: Option<String>)
    ensures
        r is None <==> candidate_refused(candidate@),
        r matches Some(p) ==> p@ == candidate_cleaned(candidate@),
{
    let trimmed = trim_chars(&chars_of(candidate));
    if trimmed.len() == 0 {
        return None;
    }
    if contains_chars(&trimmed, &chars_of("://")) {
        return None;
    }
    Some(string_of(&slashed(&trimmed)))
}

/// Finishes a cleaned candidate path, given whether it is absolute.
pub fn finish_candidate_path(cleaned: &str, absolute: bool) -> (r: String)
    ensures
        r@ == (if absolute {
            cleaned@
        } else {
            strip_leading(cleaned@, '/')
        }),
{
    if absolute {
        cleaned.to_owned()
    } else {
        string_of(&strip_leading_chars(&chars_of(cleaned), '/'))
    }
}

/// Normalizes a candidate path from a document: `None` where it is blank or
/// a URL; otherwise the cleaned path, kept whole where the platform takes it
/// for absolute and without its leading slashes where it does not.
pub fn normalize_repo_candidate_path(candidate: &str) -> (r: Option<String>)
    ensures
        r is None <==> candidate_refused(candidate@),
        r matches Some(p) ==> p@ == candidate_path(candidate@, true) || p@ == candidate_path(
            candidate@,
            false,
        ),
{
    match clean_candidate_path(candidate) {
        None => None,
        Some(cleaned) => {
            let absolute = path_is_absolute(cleaned.as_str());
            Some(finish_candidate_path(cleaned.as_str(), absolute))
        },
    }
}

/// The form in which a path is listed: the part below the repository root
/// where there is one, else the whole path, with slashes for backslashes.
pub open spec fn listed_path(absolute: Seq<char>, below_root: Option<Seq<char>>) -> Seq<char> {
    match below_root {
        Some(rest) => with_slashes(rest),
        None => with_slashes(absolute),
    }
}

/// The form in which a path is listed, given what is left of it below the
/// repository root.
pub fn repo_relative_display(absolute: &str, below_root: Option<String>) -> (r: String)
    ensures
        r@ == listed_path(
            absolute@,
            match below_root {
                Some(rest) => Some(rest@),
                None => None,
            },
        ),
{
    match below_root {
        Some(rest) => string_of(&slashed(&chars_of(rest.as_str()))),
        None => string_of(&slashed(&chars_of(absolute))),
    }
}

/// The form in which `absolute` is listed relative to `repo_root`.
pub fn path_to_repo_relative(repo_root: &str, absolute: &str) -> (r: String)
    ensures
        r@ == listed_path(absolute@, None) || exists|rest: Seq<char>|
            r@ == listed_path(absolute@, Some(rest)),
{
    let below_root = strip_path_prefix(absolute, repo_root);
    repo_relative_display(absolute, below_root)
}

} // verus!
