//! The document walker: it finds the string leaves that lie below a
//! commentary field, sanitizes them in place and reports on each.

use vstd::prelude::*;
use crate::config::BLOCKED_COMMENT_TOKEN;
use crate::document::{Tree, Value};
use crate::fields::{
    comment_field, element_path, index_path, is_comment_field, join_path, member_path,
};
use crate::rules::{RuleSet, RuleSetView};
use crate::sanitizer::{outcome_of, sanitize_comment_text, sanitized_text, OutcomeView};
use crate::text::string_texts;

verus! {

/// What the sanitizer did to the field at `field_path`.
#[derive(Debug)]
pub struct CommentSanitizationReport {
    pub field_path: String,
    pub blocked: bool,
    pub changed: bool,
    pub score: u32,
    pub reasons: Vec<String>,
    pub original_length: usize,
    pub sanitized_length: usize,
}

/// The mathematical content of a `CommentSanitizationReport`.
pub struct ReportView {
    pub field_path: Seq<char>,
    pub blocked: bool,
    pub changed: bool,
    pub score: nat,
    pub reasons: Seq<Seq<char>>,
    pub original_length: nat,
    pub sanitized_length: nat,
}

impl View for CommentSanitizationReport {
    type V = ReportView;

    open spec fn view(&self) -> ReportView {
        ReportView {
            field_path: self.field_path@,
            blocked: self.blocked,
            changed: self.changed,
            score: self.score as nat,
            reasons: string_texts(self.reasons@),
            original_length: self.original_length as nat,
            sanitized_length: self.sanitized_length as nat,
        }
    }
}

/// The views of a list of reports.
pub open spec fn report_views(reports: Seq<CommentSanitizationReport>) -> Seq<ReportView> {
    Seq::new(reports.len(), |i: int| reports[i]@)
}

/// The report on an outcome for the field at `path`: the outcome without
/// its text, and the path.
pub open spec fn report_at(path: Seq<char>, out: OutcomeView) -> ReportView {
    ReportView {
        field_path: path,
        blocked: out.blocked,
        changed: out.changed,
        score: out.score,
        reasons: out.reasons,
        original_length: out.original_length,
        sanitized_length: out.sanitized_length,
    }
}

/// The tree with every string leaf in commentary context replaced by its
/// sanitized text. A member of a mapping is in commentary context when the
/// mapping is, or when its key denotes commentary; an element of a sequence
/// is when the sequence is.
pub open spec fn sanitized_tree(rules: RuleSetView, tree: Tree, context: bool) -> Tree
    decreases tree,
{
    match tree {
        Tree::Text(text) => if context {
            Tree::Text(sanitized_text(rules, text))
        } else {
            tree
        },
        Tree::List(items) => Tree::List(
            Seq::new(
                items.len(),
                |i: int|
                    if 0 <= i < items.len() {
                        sanitized_tree(rules, items[i], context)
                    } else {
                        Tree::Null
                    },
            ),
        ),
        Tree::Record(keys, values) => Tree::Record(
            keys,
            Seq::new(
                values.len(),
                |i: int|
                    if 0 <= i < values.len() {
                        sanitized_tree(rules, values[i], context || comment_field(keys[i]))
                    } else {
                        Tree::Null
                    },
            ),
        ),
        _ => tree,
    }
}

/// The reports on the string leaves of a tree that lie in commentary
/// context, in the order in which a depth-first walk meets them.
pub open spec fn tree_reports(
    rules: RuleSetView,
    tree: Tree,
    path: Seq<char>,
    context: bool,
) -> Seq<ReportView>
    decreases tree, 0nat,
{
    match tree {
        Tree::Text(text) => if context {
            seq![report_at(path, outcome_of(rules, text))]
        } else {
            Seq::empty()
        },
        Tree::List(items) => list_reports(rules, items, path, context, items.len()),
        Tree::Record(keys, values) => record_reports(
            rules,
            keys,
            values,
            path,
            context,
            values.len(),
        ),
        _ => Seq::empty(),
    }
}

/// The reports on the first `count` elements of a sequence.
pub open spec fn list_reports(
    rules: RuleSetView,
    items: Seq<Tree>,
    path: Seq<char>,
    context: bool,
    count: nat,
) -> Seq<ReportView>
    decreases items, count,
{
    if count == 0 || count > items.len() {
        Seq::empty()
    } else {
        list_reports(rules, items, path, context, (count - 1) as nat) + tree_reports(
            rules,
            items[count - 1],
            element_path(path, (count - 1) as nat),
            context,
        )
    }
}

/// The reports on the first `count` members of a mapping.
pub open spec fn record_reports(
    rules: RuleSetView,
    keys: Seq<Seq<char>>,
    values: Seq<Tree>,
    path: Seq<char>,
    context: bool,
    count: nat,
) -> Seq<ReportView>
    decreases values, count,
{
    if count == 0 || count > values.len() {
        Seq::empty()
    } else {
        record_reports(rules, keys, values, path, context, (count - 1) as nat) + tree_reports(
            rules,
            values[count - 1],
            member_path(path, keys[count - 1]),
            context || comment_field(keys[count - 1]),
        )
    }
}

/// Walks `value` depth first and sanitizes, in place, every string leaf in
/// commentary context; a report on each is appended to `reports`. Leaves
/// outside commentary context and leaves that are no strings are left as
/// they are.
pub fn walk_and_sanitize_comments(
    rules: &RuleSet,
    value: &mut Value,
    path: &str,
    in_comment_context: bool,
    reports: &mut Vec<CommentSanitizationReport>,
)
    ensures
        final(value)@ == sanitized_tree(rules@, old(value)@, in_comment_context),
        report_views(final(reports)@) == report_views(old(reports)@) + tree_reports(
            rules@,
            old(value)@,
            path@,
            in_comment_context,
        ),
    decreases *old(value),
{
    let ghost whole = *value;
    let ghost reported = report_views(reports@);
    match value {
        Value::Object(members) => {
            let ghost before = *members;
            let ghost keys = whole@->Record_0;
            let ghost values = whole@->Record_1;
            let n = members.len();
            let mut i: usize = 0;
            while i < n
                invariant
                    whole == Value::Object(before),
                    whole == *old(value),
                    keys == whole@->Record_0,
                    values == whole@->Record_1,
                    members.len() == n,
                    before.len() == n,
                    i <= n,
                    forall|j: int|
                        0 <= j < i ==> (#[trigger] members[j]).0 == before[j].0 && members[j].1@
                            == sanitized_tree(
                            rules@,
                            values[j],
                            in_comment_context || comment_field(keys[j]),
                        ),
                    forall|j: int| i <= j < n ==> #[trigger] members[j] == before[j],
                    report_views(reports@) == reported + record_reports(
                        rules@,
                        keys,
                        values,
                        path@,
                        in_comment_context,
                        i as nat,
                    ),
                decreases n - i,
            {
                proof {
                    assert(whole->Object_0 == before);
                    assert(decreases_to!(whole => whole->Object_0));
                    assert(decreases_to!(before => before[i as int]));
                    assert(decreases_to!(before[i as int] => before[i as int].1));
                    assert(values[i as int] == before[i as int].1@);
                    assert(keys[i as int] == before[i as int].0@);
                }
                let member = &mut members[i];
                let child_path = join_path(path, member.0.as_str());
                let child_context = in_comment_context || is_comment_field(member.0.as_str());
                walk_and_sanitize_comments(
                    rules,
                    &mut member.1,
                    child_path.as_str(),
                    child_context,
                    reports,
                );
                i += 1;
            }
            proof {
                let after = Value::Object(*members)@;
                let expected = sanitized_tree(rules@, whole@, in_comment_context);
                assert(after->Record_0 =~= expected->Record_0);
                assert(after->Record_1 =~= expected->Record_1);
            }
        },
        Value::Array(items) => {
            let ghost before = *items;
            let ghost elements = whole@->List_0;
            let n = items.len();
            let mut i: usize = 0;
            while i < n
                invariant
                    whole == Value::Array(before),
                    whole == *old(value),
                    elements == whole@->List_0,
                    items.len() == n,
                    before.len() == n,
                    i <= n,
                    forall|j: int|
                        0 <= j < i ==> (#[trigger] items[j])@ == sanitized_tree(
                            rules@,
                            elements[j],
                            in_comment_context,
                        ),
                    forall|j: int| i <= j < n ==> #[trigger] items[j] == before[j],
                    report_views(reports@) == reported + list_reports(
                        rules@,
                        elements,
                        path@,
                        in_comment_context,
                        i as nat,
                    ),
                decreases n - i,
            {
                proof {
                    assert(whole->Array_0 == before);
                    assert(decreases_to!(whole => whole->Array_0));
                    assert(decreases_to!(before => before[i as int]));
                    assert(elements[i as int] == before[i as int]@);
                }
                let child_path = index_path(path, i);
                walk_and_sanitize_comments(
                    rules,
                    &mut items[i],
                    child_path.as_str(),
                    in_comment_context,
                    reports,
                );
                i += 1;
            }
            proof {
                let after = Value::Array(*items)@;
                let expected = sanitized_tree(rules@, whole@, in_comment_context);
                assert(after->List_0 =~= expected->List_0);
            }
        },
        Value::String(text) => {
            if in_comment_context {
                let outcome = sanitize_comment_text(rules, text.as_str());
                let report = CommentSanitizationReport {
                    field_path: path.to_owned(),
                    blocked: outcome.blocked,
                    changed: outcome.changed,
                    score: outcome.score,
                    reasons: outcome.reasons,
                    original_length: outcome.original_length,
                    sanitized_length: outcome.sanitized_length,
                };
                *text = outcome.sanitized;
                reports.push(report);
                assert(report_views(reports@) =~= reported + seq![
                    report_at(path@, outcome_of(rules@, whole@->Text_0)),
                ]);
            } else {
                assert(report_views(reports@) =~= reported + Seq::empty());
            }
        },
        _ => {
            assert(report_views(reports@) =~= reported + Seq::empty());
        },
    }
}

/// Sanitizes the commentary of one document, whose root is reported under
/// the path `data`, and returns the reports in the order of the walk.
pub fn sanitize_comment_fields(rules: &RuleSet, value: &mut Value) -> (reports: Vec<
    CommentSanitizationReport,
>)
    ensures
        final(value)@ == sanitized_tree(rules@, old(value)@, false),
        report_views(reports@) == tree_reports(rules@, old(value)@, "data"@, false),
{
    let mut reports: Vec<CommentSanitizationReport> = Vec::new();
    walk_and_sanitize_comments(rules, value, "data", false, &mut reports);
    assert(report_views(reports@) =~= tree_reports(rules@, old(value)@, "data"@, false));
    reports
}

/// The walk preserves the shape of a tree exactly: only string leaves
/// change, and they stay string leaves.
pub proof fn lemma_walk_preserves_shape(rules: RuleSetView, tree: Tree, context: bool)
    ensures
        tree.same_shape(sanitized_tree(rules, tree, context)),
    decreases tree,
{
    match tree {
        Tree::List(items) => {
            let out = sanitized_tree(rules, tree, context)->List_0;
            assert forall|i: int| 0 <= i < items.len() implies (#[trigger] items[i]).same_shape(
                out[i],
            ) by {
                lemma_walk_preserves_shape(rules, items[i], context);
            }
        },
        Tree::Record(keys, values) => {
            let out = sanitized_tree(rules, tree, context)->Record_1;
            assert forall|i: int| 0 <= i < values.len() implies (#[trigger] values[i]).same_shape(
                out[i],
            ) by {
                lemma_walk_preserves_shape(
                    rules,
                    values[i],
                    context || comment_field(keys[i]),
                );
            }
        },
        _ => {},
    }
}

/// Whether some key of a tree, at any depth, denotes commentary.
pub open spec fn has_comment_field(tree: Tree) -> bool
    decreases tree,
{
    match tree {
        Tree::List(items) => exists|i: int|
            0 <= i < items.len() && has_comment_field(#[trigger] items[i]),
        Tree::Record(keys, values) => exists|i: int|
            0 <= i < values.len() && (comment_field(keys[i]) || has_comment_field(
                #[trigger] values[i],
            )),
        _ => false,
    }
}

/// There is no implicit commentary context: a tree none of whose keys
/// denotes commentary, walked from outside commentary context, is left
/// untouched, and nothing is reported on it.
pub proof fn lemma_walk_without_commentary(rules: RuleSetView, tree: Tree, path: Seq<char>)
    requires
        !has_comment_field(tree),
    ensures
        sanitized_tree(rules, tree, false) == tree,
        tree_reports(rules, tree, path, false) == Seq::<ReportView>::empty(),
    decreases tree, 0nat,
{
    match tree {
        Tree::List(items) => {
            let out = sanitized_tree(rules, tree, false)->List_0;
            assert forall|i: int| 0 <= i < items.len() implies out[i] == items[i] by {
                assert(!has_comment_field(items[i]));
                lemma_walk_without_commentary(rules, items[i], path);
            }
            assert(out =~= items);
            lemma_list_without_commentary(rules, items, path, items.len());
        },
        Tree::Record(keys, values) => {
            let out = sanitized_tree(rules, tree, false)->Record_1;
            assert forall|i: int| 0 <= i < values.len() implies out[i] == values[i] by {
                assert(!has_comment_field(values[i]));
                assert(!comment_field(keys[i]));
                lemma_walk_without_commentary(rules, values[i], path);
            }
            assert(out =~= values);
            lemma_record_without_commentary(rules, keys, values, path, values.len());
        },
        _ => {},
    }
}

proof fn lemma_list_without_commentary(
    rules: RuleSetView,
    items: Seq<Tree>,
    path: Seq<char>,
    count: nat,
)
    requires
        count <= items.len(),
        !has_comment_field(Tree::List(items)),
    ensures
        list_reports(rules, items, path, false, count) == Seq::<ReportView>::empty(),
    decreases items, count,
{
    if count > 0 {
        lemma_list_without_commentary(rules, items, path, (count - 1) as nat);
        assert(Tree::List(items)->List_0 == items);
        assert(!has_comment_field(items[count - 1]));
        lemma_walk_without_commentary(
            rules,
            items[count - 1],
            element_path(path, (count - 1) as nat),
        );
    }
}

proof fn lemma_record_without_commentary(
    rules: RuleSetView,
    keys: Seq<Seq<char>>,
    values: Seq<Tree>,
    path: Seq<char>,
    count: nat,
)
    requires
        count <= values.len(),
        !has_comment_field(Tree::Record(keys, values)),
    ensures
        record_reports(rules, keys, values, path, false, count) == Seq::<ReportView>::empty(),
    decreases values, count,
{
    if count > 0 {
        lemma_record_without_commentary(rules, keys, values, path, (count - 1) as nat);
        assert(Tree::Record(keys, values)->Record_1 == values);
        assert(!has_comment_field(values[count - 1]) && !comment_field(keys[count - 1]));
        lemma_walk_without_commentary(
            rules,
            values[count - 1],
            member_path(path, keys[count - 1]),
        );
    }
}

/// Commentary context is inherited: below a mapping in commentary context
/// every member is in it, whatever its key, and so is every element of a
/// sequence in commentary context.
pub proof fn lemma_context_is_inherited(
    rules: RuleSetView,
    keys: Seq<Seq<char>>,
    values: Seq<Tree>,
    i: int,
)
    requires
        0 <= i < values.len(),
    ensures
        sanitized_tree(rules, Tree::Record(keys, values), true)->Record_1[i] == sanitized_tree(
            rules,
            values[i],
            true,
        ),
        sanitized_tree(rules, Tree::List(values), true)->List_0[i] == sanitized_tree(
            rules,
            values[i],
            true,
        ),
{
    assert(Tree::Record(keys, values)->Record_1 == values);
    assert(Tree::List(values)->List_0 == values);
}

/// Commentary context does not cross to siblings: outside commentary
/// context, what becomes of a member depends on its own key alone, and
/// membership in a sequence gives no context.
pub proof fn lemma_context_stays_below_its_key(
    rules: RuleSetView,
    keys: Seq<Seq<char>>,
    values: Seq<Tree>,
    i: int,
)
    requires
        0 <= i < values.len(),
    ensures
        sanitized_tree(rules, Tree::Record(keys, values), false)->Record_1[i] == sanitized_tree(
            rules,
            values[i],
            comment_field(keys[i]),
        ),
        sanitized_tree(rules, Tree::List(values), false)->List_0[i] == sanitized_tree(
            rules,
            values[i],
            false,
        ),
{
    assert(Tree::Record(keys, values)->Record_1 == values);
    assert(Tree::Record(keys, values)->Record_0 == keys);
    assert(Tree::List(values)->List_0 == values);
}

/// A report agrees with the text written back into the tree: its length is
/// the length of that text, and a blocked field holds the block token.
pub proof fn lemma_report_agrees_with_written_text(
    rules: RuleSetView,
    text: Seq<char>,
    path: Seq<char>,
)
    ensures
        sanitized_tree(rules, Tree::Text(text), true) == Tree::Text(sanitized_text(rules, text)),
        tree_reports(rules, Tree::Text(text), path, true) == seq![
            report_at(path, outcome_of(rules, text)),
        ],
        report_at(path, outcome_of(rules, text)).field_path == path,
        report_at(path, outcome_of(rules, text)).sanitized_length == sanitized_text(
            rules,
            text,
        ).len(),
        report_at(path, outcome_of(rules, text)).original_length == text.len(),
        report_at(path, outcome_of(rules, text)).blocked ==> sanitized_text(rules, text)
            == BLOCKED_COMMENT_TOKEN@,
{
}

/// Whether every report on a blocked field says that the field changed.
pub open spec fn blocked_are_changed(reports: Seq<ReportView>) -> bool {
    forall|i: int| 0 <= i < reports.len() ==> ((#[trigger] reports[i]).blocked ==> reports[i].changed)
}

/// A blocked field always counts as changed: every report of a walk that
/// says `blocked` says `changed` too.
pub proof fn lemma_blocked_fields_are_changed(
    rules: RuleSetView,
    tree: Tree,
    path: Seq<char>,
    context: bool,
)
    ensures
        blocked_are_changed(tree_reports(rules, tree, path, context)),
    decreases tree, 0nat,
{
    match tree {
        Tree::List(items) => {
            lemma_list_blocked_are_changed(rules, items, path, context, items.len());
        },
        Tree::Record(keys, values) => {
            lemma_record_blocked_are_changed(rules, keys, values, path, context, values.len());
        },
        _ => {},
    }
}

proof fn lemma_list_blocked_are_changed(
    rules: RuleSetView,
    items: Seq<Tree>,
    path: Seq<char>,
    context: bool,
    count: nat,
)
    ensures
        blocked_are_changed(list_reports(rules, items, path, context, count)),
    decreases items, count,
{
    if count > 0 && count <= items.len() {
        lemma_list_blocked_are_changed(rules, items, path, context, (count - 1) as nat);
        lemma_blocked_fields_are_changed(
            rules,
            items[count - 1],
            element_path(path, (count - 1) as nat),
            context,
        );
    }
}

proof fn lemma_record_blocked_are_changed(
    rules: RuleSetView,
    keys: Seq<Seq<char>>,
    values: Seq<Tree>,
    path: Seq<char>,
    context: bool,
    count: nat,
)
    ensures
        blocked_are_changed(record_reports(rules, keys, values, path, context, count)),
    decreases values, count,
{
    if count > 0 && count <= values.len() {
        lemma_record_blocked_are_changed(rules, keys, values, path, context, (count - 1) as nat);
        lemma_blocked_fields_are_changed(
            rules,
            values[count - 1],
            member_path(path, keys[count - 1]),
            context || comment_field(keys[count - 1]),
        );
    }
}

/// The walk keeps the keys of every mapping: a document whose keys are
/// unique has unique keys after it.
pub proof fn lemma_walk_keeps_unique_keys(rules: RuleSetView, tree: Tree, context: bool)
    requires
        tree.unique_keys(),
    ensures
        sanitized_tree(rules, tree, context).unique_keys(),
{
    lemma_walk_preserves_shape(rules, tree, context);
    tree.lemma_same_shape_keeps_unique_keys(sanitized_tree(rules, tree, context));
}

} // verus!
