use kanbus::beads_write::{
    add_beads_comment, add_beads_dependency, create_beads_issue, new_beads_record, delete_beads_comment, delete_beads_issue,
    match_comment_prefix, parse_beads_records, remove_beads_dependency, update_beads_comment, update_beads_issue,
};
use kanbus::error::KanbusError;
use kanbus::json_value::JsonValue;

fn show(v: &JsonValue) -> String {
    format!("{v:?}")
}

fn shows(v: &[JsonValue]) -> String {
    format!("{v:?}")
}

fn text(s: &str) -> JsonValue {
    JsonValue::Text(s.to_string())
}

fn object(entries: Vec<(&str, JsonValue)>) -> JsonValue {
    JsonValue::Object(entries.into_iter().map(|(k, v)| (k.to_string(), v)).collect())
}

fn field<'a>(v: &'a JsonValue, key: &str) -> Option<&'a JsonValue> {
    match v {
        JsonValue::Object(entries) => entries.iter().find(|(k, _)| k == key).map(|(_, v)| v),
        _ => None,
    }
}

fn text_field<'a>(v: &'a JsonValue, key: &str) -> Option<&'a str> {
    match field(v, key) {
        Some(JsonValue::Text(s)) => Some(s.as_str()),
        _ => None,
    }
}

fn array<'a>(v: &'a JsonValue, key: &str) -> &'a Vec<JsonValue> {
    match field(v, key) {
        Some(JsonValue::Array(a)) => a,
        _ => panic!("expected array under {key}"),
    }
}

fn record(id: &str) -> JsonValue {
    object(vec![("id", text(id)), ("title", text(&format!("Title {id}"))), ("status", text("open"))])
}

fn comment_uuid(issue: &str, comment: &str) -> String {
    let key = format!("kanbus-comment:{issue}:{comment}");
    uuid::Uuid::new_v5(&uuid::Uuid::NAMESPACE_URL, key.as_bytes()).to_string()
}

#[test]
fn add_beads_comment_appends_numbered_comment_and_touches_record() {
    let records = vec![record("bd-a1"), record("bd-b2")];
    let out = add_beads_comment(records, "bd-b2", "alice", "hello", "2026-01-01T00:00:00+00:00").expect("added");
    assert_eq!(out.len(), 2);
    assert_eq!(show(&out[0]), show(&record("bd-a1")));
    let comments = array(&out[1], "comments");
    assert_eq!(comments.len(), 1);
    assert_eq!(field(&comments[0], "id").map(show), Some(show(&JsonValue::Number("1".to_string()))));
    assert_eq!(text_field(&comments[0], "author"), Some("alice"));
    assert_eq!(text_field(&comments[0], "issue_id"), Some("bd-b2"));
    assert_eq!(text_field(&out[1], "updated_at"), Some("2026-01-01T00:00:00+00:00"));
    let again = add_beads_comment(out, "bd-b2", "bob", "second", "t2").expect("added");
    let comments = array(&again[1], "comments");
    assert_eq!(field(&comments[1], "id").map(show), Some(show(&JsonValue::Number("2".to_string()))));
    assert_eq!(text_field(&again[1], "title"), Some("Title bd-b2"));
}

#[test]
fn add_beads_comment_requires_exact_identifier() {
    let error = add_beads_comment(vec![record("bd-a1")], "bd-a", "alice", "hi", "t").unwrap_err();
    assert_eq!(error, KanbusError::IssueOperation("not found".to_string()));
}

#[test]
fn match_comment_prefix_finds_requires_and_reports_ambiguity() {
    let comments = vec![
        object(vec![("id", JsonValue::Number("1".to_string()))]),
        object(vec![("id", text("2"))]),
        object(vec![("text", text("no id"))]),
    ];
    let first = comment_uuid("bd-a1", "1");
    let second = comment_uuid("bd-a1", "2");
    assert_eq!(match_comment_prefix("bd-a1", &comments, &first[..8].to_uppercase()), Ok(0));
    assert_eq!(match_comment_prefix("bd-a1", &comments, &format!(" {} ", &second[..10])), Ok(1));
    assert_eq!(
        match_comment_prefix("bd-a1", &comments, "   "),
        Err(KanbusError::IssueOperation("comment id is required".to_string()))
    );
    assert_eq!(
        match_comment_prefix("bd-a1", &comments, "zzzz"),
        Err(KanbusError::IssueOperation("comment not found".to_string()))
    );
    let common: String = first.chars().zip(second.chars()).take_while(|(a, b)| a == b).map(|(a, _)| a).collect();
    let ambiguous = match_comment_prefix("bd-a1", &comments, &common);
    if common.is_empty() {
        assert_eq!(ambiguous, Err(KanbusError::IssueOperation("comment id is required".to_string())));
    } else {
        assert_eq!(
            ambiguous,
            Err(KanbusError::IssueOperation(format!(
                "comment id prefix is ambiguous; matches: {}, {}",
                &first[..6],
                &second[..6]
            )))
        );
    }
}

#[test]
fn update_and_delete_beads_comment_by_prefix() {
    let records = vec![record("bd-a1")];
    let records = add_beads_comment(records, "bd-a1", "alice", "one", "t1").expect("added");
    let records = add_beads_comment(records, "bd-a1", "bob", "two", "t2").expect("added");
    let target = comment_uuid("bd-a1", "2");
    let updated = update_beads_comment(records, "bd-a1", &target[..12], "TWO", "t3").expect("updated");
    let comments = array(&updated[0], "comments");
    assert_eq!(text_field(&comments[1], "text"), Some("TWO"));
    assert_eq!(text_field(&comments[0], "text"), Some("one"));
    assert_eq!(text_field(&updated[0], "updated_at"), Some("t3"));
    let first = comment_uuid("bd-a1", "1");
    let deleted = delete_beads_comment(updated, "bd-a1", &first, "t4").expect("deleted");
    let comments = array(&deleted[0], "comments");
    assert_eq!(comments.len(), 1);
    assert_eq!(text_field(&comments[0], "text"), Some("TWO"));
    let missing = delete_beads_comment(vec![record("bd-a1")], "bd-a1", &first, "t5").unwrap_err();
    assert_eq!(missing, KanbusError::IssueOperation("comment not found".to_string()));
}

#[test]
fn add_beads_dependency_appends_link_once() {
    let records = vec![record("bd-a1"), record("bd-b2")];
    let out = add_beads_dependency(records, "bd-a1", "bd-b2", "blocked-by", "t1", "dana")
        .expect("added")
        .expect("changed");
    let deps = array(&out[0], "dependencies");
    assert_eq!(deps.len(), 1);
    assert_eq!(text_field(&deps[0], "depends_on_id"), Some("bd-b2"));
    assert_eq!(text_field(&deps[0], "type"), Some("blocked-by"));
    assert_eq!(text_field(&deps[0], "created_by"), Some("dana"));
    assert_eq!(text_field(&out[0], "updated_at"), Some("t1"));
    let again = add_beads_dependency(out, "bd-a1", "bd-b2", "blocked-by", "t2", "dana").expect("ok");
    assert!(again.is_none());
}

#[test]
fn add_beads_dependency_refuses_blocking_on_parent_or_child() {
    let family = || {
        let mut child = record("bd-b2");
        if let JsonValue::Object(entries) = &mut child {
            entries.push(("parent".to_string(), text("bd-a1")));
        }
        vec![record("bd-a1"), child]
    };
    let error = add_beads_dependency(family(), "bd-b2", "bd-a1", "blocked-by", "t", "u").unwrap_err();
    assert_eq!(error, KanbusError::IssueOperation("circular dependency: cannot block on parent".to_string()));
    let error = add_beads_dependency(family(), "bd-a1", "bd-b2", "blocked-by", "t", "u").unwrap_err();
    assert_eq!(error, KanbusError::IssueOperation("circular dependency: cannot block on child".to_string()));
    let related = add_beads_dependency(family(), "bd-a1", "bd-b2", "relates-to", "t", "u").expect("ok");
    assert!(related.is_some());
}

#[test]
fn add_beads_dependency_rejects_non_list_and_unknown_target() {
    let mut source = record("bd-a1");
    if let JsonValue::Object(entries) = &mut source {
        entries.push(("dependencies".to_string(), text("oops")));
    }
    let error = add_beads_dependency(vec![source, record("bd-b2")], "bd-a1", "bd-b2", "blocks", "t", "u").unwrap_err();
    assert_eq!(error, KanbusError::IssueOperation("invalid dependency list".to_string()));
    let error = add_beads_dependency(vec![record("bd-a1")], "bd-a1", "bd-zz", "blocks", "t", "u").unwrap_err();
    assert_eq!(error, KanbusError::IssueOperation("not found".to_string()));
}

#[test]
fn remove_beads_dependency_filters_and_drops_empty_lists() {
    let records = vec![record("bd-a1"), record("bd-b2"), record("bd-c3")];
    let records = add_beads_dependency(records, "bd-a1", "bd-b2", "blocks", "t1", "u").unwrap().unwrap();
    let records = add_beads_dependency(records, "bd-a1", "bd-c3", "blocks", "t2", "u").unwrap().unwrap();
    let out = remove_beads_dependency(records, "bd-a1", "bd-b2", "blocks", "t3").expect("removed");
    let deps = array(&out[0], "dependencies");
    assert_eq!(deps.len(), 1);
    assert_eq!(text_field(&deps[0], "depends_on_id"), Some("bd-c3"));
    let out = remove_beads_dependency(out, "bd-a1", "bd-c3", "blocks", "t4").expect("removed");
    assert!(field(&out[0], "dependencies").is_none());
    assert_eq!(text_field(&out[0], "updated_at"), Some("t4"));
}

#[test]
fn delete_beads_issue_clears_references() {
    let mut child = record("bd-b2");
    if let JsonValue::Object(entries) = &mut child {
        entries.push(("parent".to_string(), text("bd-a1")));
    }
    let records = vec![record("bd-a1"), child, record("bd-c3")];
    let records = add_beads_dependency(records, "bd-c3", "bd-a1", "blocks", "t", "u").unwrap().unwrap();
    let out = delete_beads_issue(records, "bd-a1").expect("deleted");
    assert_eq!(out.len(), 2);
    assert_eq!(text_field(&out[0], "id"), Some("bd-b2"));
    assert!(field(&out[0], "parent").is_none());
    assert!(field(&out[1], "dependencies").is_none());
    let error = delete_beads_issue(out, "bd-a1").unwrap_err();
    assert_eq!(error, KanbusError::IssueOperation("not found".to_string()));
}

#[test]
fn update_beads_issue_sets_requested_fields_and_labels() {
    let mut source = record("bd-a1");
    if let JsonValue::Object(entries) = &mut source {
        entries.push(("labels".to_string(), JsonValue::Array(vec![text("UI"), JsonValue::Null, text("old")])));
    }
    let out = update_beads_issue(
        vec![source, record("bd-b2")],
        "bd-a1",
        Some("closed"),
        Some(1),
        None,
        None,
        Some("dana"),
        &["ui".to_string(), " api ".to_string()],
        &["OLD".to_string()],
        None,
        "t9",
    )
    .expect("updated");
    assert_eq!(text_field(&out[0], "status"), Some("closed"));
    assert_eq!(field(&out[0], "priority").map(show), Some(show(&JsonValue::Number("1".to_string()))));
    assert_eq!(text_field(&out[0], "assignee"), Some("dana"));
    assert_eq!(text_field(&out[0], "title"), Some("Title bd-a1"));
    assert_eq!(shows(array(&out[0], "labels")), shows(&[text("UI"), text("api")]));
    assert_eq!(text_field(&out[0], "updated_at"), Some("t9"));
    assert_eq!(show(&out[1]), show(&record("bd-b2")));
}

#[test]
fn update_beads_issue_requires_changes_and_a_unique_match() {
    let error = update_beads_issue(vec![record("bd-a1")], "bd-a1", None, None, None, None, None, &[], &[], None, "t")
        .unwrap_err();
    assert_eq!(error, KanbusError::IssueOperation("no updates requested".to_string()));
    let error = update_beads_issue(
        vec![record("bd-a11"), record("bd-a12")],
        "bd-a1",
        Some("open"),
        None,
        None,
        None,
        None,
        &[],
        &[],
        None,
        "t",
    )
    .unwrap_err();
    assert_eq!(
        error,
        KanbusError::IssueOperation("ambiguous identifier, matches: bd-a11, bd-a12".to_string())
    );
    let out = update_beads_issue(vec![record("bd-a11")], "bd-a1", Some("open"), None, None, None, None, &[], &[], Some(" x, ,y "), "t")
        .expect("unique prefix");
    assert_eq!(shows(array(&out[0], "labels")), shows(&[text("x"), text("y")]));
}

#[test]
fn beads_records_skip_blank_lines() {
    let records = parse_beads_records("{\"id\":\"bd-1\"}\n\n   \n{\"id\":\"bd-2\",\"n\":[1,true]}\n").expect("records");
    assert_eq!(records.len(), 2);
    assert_eq!(kanbus::json_value::compact_json_text(&records[0]), "{\"id\":\"bd-1\"}");
    assert_eq!(kanbus::json_value::text_of(&records[1], "id"), Some("bd-2"));
}

#[test]
fn beads_records_report_bad_line() {
    let error = parse_beads_records("{\"id\":\"bd-1\"}\nnot json\n").expect_err("bad line");
    assert!(matches!(error, KanbusError::Io(_)));
    assert!(parse_beads_records("").expect("empty").is_empty());
}

#[test]
fn new_child_beads_record_holds_its_fields() {
    let issue = create_beads_issue(
        Ok(vec![Some("bd-1".to_string())]),
        "Child",
        None,
        Some(1),
        Some("amy"),
        Some("bd-1"),
        None,
        0,
        "dev",
    )
    .expect("issue");
    assert_eq!(issue.identifier, "bd-1.1");
    let record = new_beads_record(&issue, "2026-01-01T00:00:00+00:00", "dev", "dev");
    assert_eq!(
        kanbus::json_value::compact_json_text(&record),
        "{\"id\":\"bd-1.1\",\"title\":\"Child\",\"description\":\"\",\"status\":\"open\",\"priority\":1,\"issue_type\":\"task\",\"created_at\":\"2026-01-01T00:00:00+00:00\",\"created_by\":\"dev\",\"updated_at\":\"2026-01-01T00:00:00+00:00\",\"owner\":\"dev\",\"assignee\":\"amy\",\"dependencies\":[{\"issue_id\":\"bd-1.1\",\"depends_on_id\":\"bd-1\",\"type\":\"parent-child\",\"created_at\":\"2026-01-01T00:00:00+00:00\",\"created_by\":\"dev\"}],\"comments\":[]}"
    );
}

#[test]
fn new_top_level_beads_record_has_no_dependencies() {
    let issue = create_beads_issue(
        Ok(vec![Some("bd-abc".to_string())]),
        "Top",
        Some("bug"),
        None,
        None,
        None,
        Some("text"),
        0,
        "dev",
    )
    .expect("issue");
    assert!(issue.identifier.starts_with("bd-"));
    let record = new_beads_record(&issue, "t", "dev", "owner");
    let text = kanbus::json_value::compact_json_text(&record);
    assert!(text.ends_with("\"priority\":2,\"issue_type\":\"bug\",\"created_at\":\"t\",\"created_by\":\"dev\",\"updated_at\":\"t\",\"owner\":\"owner\",\"comments\":[]}"));
    assert!(text.contains("\"description\":\"text\""));
}
