//! The aggregator: counts over the reports of one document, and totals over
//! the documents of a corpus.

use vstd::prelude::*;
use crate::config::{BLOCK_SCORE_THRESHOLD, COMMENT_MAX_CHARS, SANITIZER_VERSION};
use crate::document::Tree;
use crate::rules::RuleSetView;
use crate::walker::{
    blocked_are_changed, lemma_blocked_fields_are_changed, report_views, tree_reports,
    CommentSanitizationReport, ReportView,
};

verus! {

/// The counts over the reports of one document.
#[derive(Debug, Clone, Copy, PartialEq, Eq, Structural)]
pub struct DocumentSecurity {
    pub comment_fields_checked: usize,
    pub changed_fields: usize,
    pub blocked_fields: usize,
}

/// The totals over the documents of a corpus, together with the
/// configuration under which they were sanitized.
#[derive(Debug, Clone, Copy, PartialEq, Eq)]
pub struct CorpusSecuritySummary {
    pub sanitizer_version: &'static str,
    pub comment_fields_checked: usize,
    pub changed_fields: usize,
    pub blocked_fields: usize,
    pub documents_with_blocked_comments: usize,
    pub block_score_threshold: u32,
    pub comment_max_chars: usize,
}

/// The number of reports on a changed field.
pub open spec fn changed_count(reports: Seq<ReportView>) -> nat {
    reports.filter(|r: ReportView| r.changed).len()
}

/// The number of reports on a blocked field.
pub open spec fn blocked_count(reports: Seq<ReportView>) -> nat {
    reports.filter(|r: ReportView| r.blocked).len()
}

/// Counts the reports of one document: all of them, those on a changed
/// field and those on a blocked field.
pub fn summarize_reports(reports: &Vec<CommentSanitizationReport>) -> (r: DocumentSecurity)
    ensures
        r.comment_fields_checked == reports.len(),
        r.changed_fields == changed_count(report_views(reports@)),
        r.blocked_fields == blocked_count(report_views(reports@)),
{
    let ghost views = report_views(reports@);
    let n = reports.len();
    let mut changed: usize = 0;
    let mut blocked: usize = 0;
    let mut i: usize = 0;
    proof {
        reveal(Seq::filter);
    }
    while i < n
        invariant
            n == reports.len(),
            views == report_views(reports@),
            i <= n,
            changed <= i,
            blocked <= i,
            changed == changed_count(views.take(i as int)),
            blocked == blocked_count(views.take(i as int)),
        decreases n - i,
    {
        proof {
            reveal(Seq::filter);
            assert(views.take(i + 1).drop_last() == views.take(i as int));
            assert(views.take(i + 1).last() == reports[i as int]@);
        }
        if reports[i].changed {
            changed += 1;
        }
        if reports[i].blocked {
            blocked += 1;
        }
        i += 1;
    }
    assert(views.take(n as int) == views);
    DocumentSecurity { comment_fields_checked: n, changed_fields: changed, blocked_fields: blocked }
}

/// The sum of a count over the documents of a corpus.
pub open spec fn total(documents: Seq<DocumentSecurity>, count: spec_fn(DocumentSecurity) -> nat)
    -> nat
    decreases documents.len(),
{
    if documents.len() == 0 {
        0
    } else {
        total(documents.drop_last(), count) + count(documents.last())
    }
}

/// The number of fields checked in all documents.
pub open spec fn checked_total(documents: Seq<DocumentSecurity>) -> nat {
    total(documents, |d: DocumentSecurity| d.comment_fields_checked as nat)
}

/// The number of fields changed in all documents.
pub open spec fn changed_total(documents: Seq<DocumentSecurity>) -> nat {
    total(documents, |d: DocumentSecurity| d.changed_fields as nat)
}

/// The number of fields blocked in all documents.
pub open spec fn blocked_total(documents: Seq<DocumentSecurity>) -> nat {
    total(documents, |d: DocumentSecurity| d.blocked_fields as nat)
}

/// The number of documents with at least one blocked field.
pub open spec fn blocked_documents(documents: Seq<DocumentSecurity>) -> nat {
    documents.filter(|d: DocumentSecurity| d.blocked_fields > 0).len()
}

/// Whether the totals over a corpus fit in the counters of a summary.
pub open spec fn totals_fit(documents: Seq<DocumentSecurity>) -> bool {
    &&& checked_total(documents) <= usize::MAX
    &&& changed_total(documents) <= usize::MAX
    &&& blocked_total(documents) <= usize::MAX
}

proof fn lemma_total_monotone(
    documents: Seq<DocumentSecurity>,
    count: spec_fn(DocumentSecurity) -> nat,
    k: int,
)
    requires
        0 <= k <= documents.len(),
    ensures
        total(documents.take(k), count) <= total(documents, count),
    decreases documents.len() - k,
{
    if k == documents.len() {
        assert(documents.take(k) == documents);
    } else {
        lemma_total_monotone(documents, count, k + 1);
        assert(documents.take(k + 1).drop_last() == documents.take(k));
    }
}

/// Folds the counts of the documents of a corpus into its totals; `None`
/// where a total does not fit in a counter.
pub fn summarize_corpus(documents: &Vec<DocumentSecurity>) -> (r: Option<CorpusSecuritySummary>)
    ensures
        r is Some <==> totals_fit(documents@),
        r matches Some(s) ==> {
            &&& s.sanitizer_version@ == SANITIZER_VERSION@
            &&& s.block_score_threshold == BLOCK_SCORE_THRESHOLD
            &&& s.comment_max_chars == COMMENT_MAX_CHARS
            &&& s.comment_fields_checked == checked_total(documents@)
            &&& s.changed_fields == changed_total(documents@)
            &&& s.blocked_fields == blocked_total(documents@)
            &&& s.documents_with_blocked_comments == blocked_documents(documents@)
        },
{
    let n = documents.len();
    let mut checked: usize = 0;
    let mut changed: usize = 0;
    let mut blocked: usize = 0;
    let mut with_blocked: usize = 0;
    let mut i: usize = 0;
    proof {
        reveal(Seq::filter);
    }
    while i < n
        invariant
            n == documents.len(),
            i <= n,
            checked == checked_total(documents@.take(i as int)),
            changed == changed_total(documents@.take(i as int)),
            blocked == blocked_total(documents@.take(i as int)),
            with_blocked <= i,
            with_blocked == blocked_documents(documents@.take(i as int)),
        decreases n - i,
    {
        let d = documents[i];
        proof {
            reveal(Seq::filter);
            assert(documents@.take(i + 1).drop_last() == documents@.take(i as int));
            assert(documents@.take(i + 1).last() == d);
            lemma_total_monotone(
                documents@,
                |d: DocumentSecurity| d.comment_fields_checked as nat,
                i + 1,
            );
            lemma_total_monotone(documents@, |d: DocumentSecurity| d.changed_fields as nat, i + 1);
            lemma_total_monotone(documents@, |d: DocumentSecurity| d.blocked_fields as nat, i + 1);
        }
        if d.comment_fields_checked > usize::MAX - checked || d.changed_fields > usize::MAX
            - changed || d.blocked_fields > usize::MAX - blocked {
            return None;
        }
        checked = checked + d.comment_fields_checked;
        changed = changed + d.changed_fields;
        blocked = blocked + d.blocked_fields;
        if d.blocked_fields > 0 {
            with_blocked += 1;
        }
        i += 1;
    }
    assert(documents@.take(n as int) == documents@);
    Some(
        CorpusSecuritySummary {
            sanitizer_version: SANITIZER_VERSION,
            block_score_threshold: BLOCK_SCORE_THRESHOLD,
            comment_max_chars: COMMENT_MAX_CHARS,
            comment_fields_checked: checked,
            changed_fields: changed,
            blocked_fields: blocked,
            documents_with_blocked_comments: with_blocked,
        },
    )
}

/// No more fields are changed or blocked than were checked.
pub proof fn lemma_counts_within_checked(reports: Seq<ReportView>)
    ensures
        changed_count(reports) <= reports.len(),
        blocked_count(reports) <= reports.len(),
{
    reports.lemma_filter_len(|r: ReportView| r.changed);
    reports.lemma_filter_len(|r: ReportView| r.blocked);
}

/// A document counts as one with blocked comments exactly when one of its
/// reports is on a blocked field, however many other fields it has.
pub proof fn lemma_blocked_count_positive(reports: Seq<ReportView>)
    ensures
        blocked_count(reports) > 0 <==> exists|i: int|
            0 <= i < reports.len() && (#[trigger] reports[i]).blocked,
    decreases reports.len(),
{
    reveal(Seq::filter);
    if reports.len() > 0 {
        let head = reports.drop_last();
        lemma_blocked_count_positive(head);
        if blocked_count(reports) > 0 && !reports.last().blocked {
            let i = choose|i: int| 0 <= i < head.len() && (#[trigger] head[i]).blocked;
            assert(reports[i].blocked);
        }
        if exists|i: int| 0 <= i < reports.len() && (#[trigger] reports[i]).blocked {
            let i = choose|i: int| 0 <= i < reports.len() && (#[trigger] reports[i]).blocked;
            if i < head.len() {
                assert(head[i].blocked);
            }
        }
    }
}

/// The number of documents with blocked comments is at most the number of
/// documents, and at most the number of blocked fields.
pub proof fn lemma_blocked_documents_bounded(documents: Seq<DocumentSecurity>)
    ensures
        blocked_documents(documents) <= documents.len(),
        blocked_documents(documents) <= blocked_total(documents),
    decreases documents.len(),
{
    reveal(Seq::filter);
    if documents.len() > 0 {
        lemma_blocked_documents_bounded(documents.drop_last());
    }
}

/// Where every report on a blocked field says that the field changed, no
/// more fields are blocked than are changed.
pub proof fn lemma_blocked_within_changed(reports: Seq<ReportView>)
    requires
        blocked_are_changed(reports),
    ensures
        blocked_count(reports) <= changed_count(reports),
    decreases reports.len(),
{
    reveal(Seq::filter);
    if reports.len() > 0 {
        let head = reports.drop_last();
        assert forall|i: int| 0 <= i < head.len() implies ((#[trigger] head[i]).blocked
            ==> head[i].changed) by {
            assert(head[i] == reports[i]);
        }
        lemma_blocked_within_changed(head);
        assert(reports[reports.len() - 1].blocked ==> reports[reports.len() - 1].changed);
    }
}

/// In the reports of a walk no more fields are blocked than are changed,
/// and no more are changed than were checked.
pub proof fn lemma_walk_counts_are_nested(
    rules: RuleSetView,
    tree: Tree,
    path: Seq<char>,
    context: bool,
)
    ensures
        blocked_count(tree_reports(rules, tree, path, context)) <= changed_count(
            tree_reports(rules, tree, path, context),
        ),
        changed_count(tree_reports(rules, tree, path, context)) <= tree_reports(
            rules,
            tree,
            path,
            context,
        ).len(),
{
    let reports = tree_reports(rules, tree, path, context);
    lemma_blocked_fields_are_changed(rules, tree, path, context);
    lemma_blocked_within_changed(reports);
    lemma_counts_within_checked(reports);
}

} // verus!
