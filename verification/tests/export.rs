use comment_sanitizer::config::{BLOCKED_COMMENT_TOKEN, EMPTY_COMMENT_TOKEN};
use comment_sanitizer::document::{get_member, get_member_text, Value};
use comment_sanitizer::export::{
    document_held_back, export_file_name, folder_candidate_paths, free_export_name,
    is_held_back, is_learning_folder_name, pick_learning_folder, push_candidate_path,
    resolves_to_parent,
};

fn s(text: &str) -> Value {
    Value::String(text.to_string())
}

fn obj(members: Vec<(&str, Value)>) -> Value {
    Value::Object(members.into_iter().map(|(k, v)| (k.to_string(), v)).collect())
}

#[test]
fn blocked_fields_hold_a_document_back() {
    assert!(is_held_back(1, "fine comment"));
    assert!(is_held_back(7, ""));
    assert!(!is_held_back(0, "fine comment"));
}

#[test]
fn blank_comment_holds_a_document_back() {
    assert!(is_held_back(0, ""));
    assert!(is_held_back(0, "  \t\n "));
    assert!(!is_held_back(0, " x "));
}

#[test]
fn token_comments_hold_a_document_back() {
    assert!(is_held_back(0, BLOCKED_COMMENT_TOKEN));
    assert!(is_held_back(0, EMPTY_COMMENT_TOKEN));
    assert!(is_held_back(0, "  [blocked-by-fireBaseGetter-security]\n"));
    assert!(is_held_back(0, " [empty-after-sanitization] "));
    assert!(!is_held_back(0, "[redacted]"));
    assert!(!is_held_back(0, "[blocked-by-fireBaseGetter-security]!"));
}

#[test]
fn documents_are_gated_by_their_comment_member() {
    assert!(!document_held_back(&obj(vec![("comment", s("good"))]), 0));
    assert!(document_held_back(&obj(vec![("comment", s("good"))]), 2));
    assert!(document_held_back(&obj(vec![("comment", s("  "))]), 0));
    assert!(document_held_back(&obj(vec![("comment", Value::Bool(true))]), 0));
    assert!(document_held_back(&obj(vec![("feedback", s("good"))]), 0));
    assert!(document_held_back(&obj(vec![]), 0));
    assert!(document_held_back(&s("good"), 0));
    assert!(document_held_back(&Value::Array(vec![s("good")]), 0));
    assert!(document_held_back(&obj(vec![("comment", s(BLOCKED_COMMENT_TOKEN))]), 0));
}

#[test]
fn members_are_found_by_key() {
    let doc = obj(vec![("a", s("1")), ("b", Value::Null), ("a", s("2"))]);
    assert_eq!(get_member(&doc, "a"), Some(&s("1")));
    assert_eq!(get_member(&doc, "b"), Some(&Value::Null));
    assert_eq!(get_member(&doc, "c"), None);
    assert_eq!(get_member(&s("a"), "a"), None);
    assert_eq!(get_member_text(&doc, "a"), Some("1"));
    assert_eq!(get_member_text(&doc, "b"), None);
    assert_eq!(get_member_text(&doc, "A"), None);
}

#[test]
fn learning_folders_are_known_by_their_prefix() {
    assert!(is_learning_folder_name("__04_lernings_math"));
    assert!(is_learning_folder_name("__04_lernings_"));
    assert!(!is_learning_folder_name("__04_lernings"));
    assert!(!is_learning_folder_name("_04_lernings_x"));
    assert!(!is_learning_folder_name("x__04_lernings_"));
    assert!(!is_learning_folder_name(""));
}

#[test]
fn first_attempt_has_no_number() {
    assert_eq!(export_file_name("abc123", 1), "feedback_abc123.json");
    assert_eq!(export_file_name("abc123", 0), "feedback_abc123.json");
    assert_eq!(export_file_name("  a b/c  ", 1), "feedback_a_b_c.json");
}

#[test]
fn later_attempts_are_numbered() {
    assert_eq!(export_file_name("abc123", 2), "feedback_abc123_2.json");
    assert_eq!(export_file_name("abc123", 13), "feedback_abc123_13.json");
}

#[test]
fn blank_identifier_is_unknown() {
    assert_eq!(export_file_name("", 1), "feedback_unknown.json");
    assert_eq!(export_file_name("   ", 3), "feedback_unknown_3.json");
    assert_eq!(export_file_name("///", 1), "feedback_unknown.json");
}

#[test]
fn candidates_come_from_context_first() {
    let doc = obj(vec![
        ("jsonPath", s(" root/json ")),
        ("folderPath", s("root/folder")),
        (
            "context",
            obj(vec![("gamePath", s("ctx/game")), ("folderPath", s("  ctx/folder")), ("jsonPath", s("   "))]),
        ),
        ("gamePath", Value::Bool(true)),
    ]);
    assert_eq!(
        folder_candidate_paths(&doc),
        vec![
            "ctx/folder".to_string(),
            "ctx/game".to_string(),
            "root/folder".to_string(),
            "root/json".to_string()
        ]
    );
}

#[test]
fn context_that_is_no_mapping_is_skipped() {
    let doc = obj(vec![("context", s("folderPath")), ("gamePath", s("g"))]);
    assert_eq!(folder_candidate_paths(&doc), vec!["g".to_string()]);
    assert!(folder_candidate_paths(&obj(vec![])).is_empty());
    assert!(folder_candidate_paths(&Value::Null).is_empty());
}

#[test]
fn candidate_is_pushed_only_where_it_is_text() {
    let doc = obj(vec![("a", s(" x ")), ("b", s("")), ("c", Value::Null)]);
    let mut out = vec!["first".to_string()];
    push_candidate_path(&doc, "a", &mut out);
    push_candidate_path(&doc, "b", &mut out);
    push_candidate_path(&doc, "c", &mut out);
    push_candidate_path(&doc, "d", &mut out);
    assert_eq!(out, vec!["first".to_string(), "x".to_string()]);
}

#[test]
fn least_learning_folder_is_picked() {
    let names: Vec<String> = ["zeta", "__04_lernings_b", "alpha", "__04_lernings_a", "__04_lernings_c"]
        .iter()
        .map(|s| s.to_string())
        .collect();
    assert_eq!(pick_learning_folder(&names), Some(3));
    let one: Vec<String> = vec!["x".to_string(), "__04_lernings_".to_string()];
    assert_eq!(pick_learning_folder(&one), Some(1));
}

#[test]
fn no_learning_folder_gives_none() {
    let names: Vec<String> = vec!["a".to_string(), "__04_lernings".to_string(), String::new()];
    assert_eq!(pick_learning_folder(&names), None);
    assert_eq!(pick_learning_folder(&Vec::new()), None);
}

#[test]
fn first_of_equal_names_is_picked() {
    let names: Vec<String> = vec!["__04_lernings_x".to_string(), "__04_lernings_x".to_string()];
    assert_eq!(pick_learning_folder(&names), Some(0));
}

#[test]
fn file_candidates_stand_for_their_folder() {
    assert!(resolves_to_parent(false, true, false));
    assert!(resolves_to_parent(true, false, true));
    assert!(resolves_to_parent(true, true, true));
    assert!(!resolves_to_parent(false, false, false));
    assert!(!resolves_to_parent(true, true, false));
    assert!(!resolves_to_parent(true, false, false));
    assert!(!resolves_to_parent(false, false, true));
}

fn names(items: &[&str]) -> Vec<String> {
    items.iter().map(|s| s.to_string()).collect()
}

#[test]
fn first_attempt_is_free_where_nothing_is_used() {
    assert_eq!(
        free_export_name("abc123", &Vec::new()),
        Some(("feedback_abc123.json".to_string(), 1))
    );
    assert_eq!(
        free_export_name("abc123", &names(&["feedback_other.json", "feedback_abc123_2.json"])),
        Some(("feedback_abc123.json".to_string(), 1))
    );
}

#[test]
fn taken_names_are_passed_over() {
    assert_eq!(
        free_export_name("abc123", &names(&["feedback_abc123.json"])),
        Some(("feedback_abc123_2.json".to_string(), 2))
    );
    let used = names(&[
        "feedback_abc123_3.json",
        "feedback_abc123.json",
        "feedback_abc123_5.json",
        "feedback_abc123_2.json",
    ]);
    assert_eq!(free_export_name("abc123", &used), Some(("feedback_abc123_4.json".to_string(), 4)));
}

#[test]
fn free_name_counts_past_nine() {
    let mut used = vec!["feedback_x.json".to_string()];
    for n in 2..=11 {
        used.push(format!("feedback_x_{}.json", n));
    }
    assert_eq!(free_export_name(" x ", &used), Some(("feedback_x_12.json".to_string(), 12)));
}

#[test]
fn documents_with_one_identifier_get_different_names() {
    let mut used: Vec<String> = Vec::new();
    for expected in ["feedback_unknown.json", "feedback_unknown_2.json", "feedback_unknown_3.json"] {
        let (name, _) = free_export_name("", &used).unwrap();
        assert_eq!(name, expected);
        assert!(!used.contains(&name));
        used.push(name);
    }
}
