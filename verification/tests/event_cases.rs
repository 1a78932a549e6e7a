use kanbus::event_history::{
    build_update_events, comment_updated_payload, event_filename, event_page_order,
    field_update_payload, issue_created_payload, page_issue_events, state_transition_payload,
    EventRecord, EventType,
};
use kanbus::json_value::JsonValue;
use kanbus::models::IssueData;

fn sample_issue(id: &str) -> IssueData {
    IssueData {
        identifier: id.to_string(),
        title: "Title".to_string(),
        description: String::new(),
        issue_type: "task".to_string(),
        status: "open".to_string(),
        priority: 2,
        assignee: None,
        creator: None,
        parent: None,
        labels: Vec::new(),
        dependencies: Vec::new(),
        comments: Vec::new(),
        created_at: 0,
        updated_at: 0,
        closed_at: None,
        agent: None,
        right_now_summary: None,
        right_now_updated_at: None,
        custom: Vec::new(),
    }
}

fn show(v: &JsonValue) -> String {
    format!("{v:?}")
}

fn entry_keys(v: &JsonValue) -> Vec<String> {
    match v {
        JsonValue::Object(entries) => entries.iter().map(|(k, _)| k.clone()).collect(),
        _ => Vec::new(),
    }
}

/// Read the events of an issue as they would come from a directory of
/// event files: order the names newest first, then page through them.
fn load_issue_events(
    stored: &[(String, EventRecord)],
    issue_id: &str,
    before: Option<&str>,
    limit: usize,
) -> (Vec<EventRecord>, Option<String>) {
    let names: Vec<String> = stored.iter().map(|(name, _)| name.clone()).collect();
    let order = event_page_order(names, before);
    let records: Vec<(String, EventRecord)> = order
        .into_iter()
        .map(|name| {
            let (_, record) = stored.iter().find(|(n, _)| *n == name).expect("stored");
            (
                name,
                EventRecord::new(
                    &record.issue_id,
                    record.event_type,
                    &record.actor_id,
                    issue_created_payload(&sample_issue(&record.issue_id)),
                    record.occurred_at.clone(),
                ),
            )
        })
        .collect();
    page_issue_events(records, issue_id, limit)
}

#[test]
fn loads_events_for_issue_with_cursor() {
    let issue = sample_issue("kanbus-aaa");
    let other = sample_issue("kanbus-bbb");
    let make = |id: &str, at: &str| {
        let event = EventRecord::new(id, EventType::IssueCreated, "actor", issue_created_payload(&issue), at.to_string());
        (event_filename(&event.occurred_at, &event.event_id), event)
    };
    let stored = vec![
        make(&issue.identifier, "2026-02-21T06:09:40.100Z"),
        make(&issue.identifier, "2026-02-21T06:09:40.200Z"),
        make(&other.identifier, "2026-02-21T06:09:40.300Z"),
    ];
    let (events, next) = load_issue_events(&stored, &issue.identifier, None, 1);
    assert_eq!(events.len(), 1);
    assert_eq!(events[0].occurred_at, "2026-02-21T06:09:40.200Z");
    assert!(next.is_some());
    let (events_next, next_cursor) = load_issue_events(&stored, &issue.identifier, next.as_deref(), 2);
    assert_eq!(events_next.len(), 1);
    assert_eq!(events_next[0].occurred_at, "2026-02-21T06:09:40.100Z");
    assert!(next_cursor.is_none());
}

#[test]
fn event_page_order_is_newest_first_before_the_cursor() {
    let names = vec!["b".to_string(), "d".to_string(), "a".to_string(), "c".to_string()];
    assert_eq!(event_page_order(names.clone(), None), vec!["d", "c", "b", "a"]);
    assert_eq!(event_page_order(names, Some("c")), vec!["b", "a"]);
}

#[test]
fn new_events_carry_their_fields_and_a_fresh_id() {
    let payload = state_transition_payload("open", "closed");
    let event = EventRecord::new("kanbus-a", EventType::StateTransition, "dana", payload, "t".to_string());
    assert_eq!(event.schema_version, 1);
    assert_eq!(event.event_id.len(), 36);
    assert_eq!(&event.event_id[14..15], "4");
    assert_eq!(event.issue_id, "kanbus-a");
    assert_eq!(event.actor_id, "dana");
    assert_eq!(entry_keys(&event.payload), vec!["from_status", "to_status"]);
}

#[test]
fn created_payload_lists_the_issue_fields() {
    let mut issue = sample_issue("kanbus-a");
    issue.priority = -3;
    issue.labels = vec!["ui".to_string()];
    issue.assignee = Some("dana".to_string());
    let payload = issue_created_payload(&issue);
    assert_eq!(
        entry_keys(&payload),
        vec!["title", "description", "issue_type", "status", "priority", "assignee", "parent", "labels"]
    );
    if let JsonValue::Object(entries) = &payload {
        assert_eq!(show(&entries[4].1), show(&JsonValue::Number("-3".to_string())));
        assert_eq!(show(&entries[5].1), show(&JsonValue::Text("dana".to_string())));
        assert_eq!(show(&entries[6].1), show(&JsonValue::Null));
    }
    assert_eq!(entry_keys(&comment_updated_payload("c1", "dana")), vec!["comment_id", "comment_author", "changed_fields"]);
}

#[test]
fn field_updates_record_only_changed_fields() {
    let before = sample_issue("kanbus-a");
    assert!(field_update_payload(&before, &before).is_none());
    let mut after = sample_issue("kanbus-a");
    after.title = "New".to_string();
    after.priority = 1;
    after.status = "closed".to_string();
    let payload = field_update_payload(&before, &after).expect("changes");
    let changes = match &payload {
        JsonValue::Object(entries) => {
            assert_eq!(entries[0].0, "changes");
            entry_keys(&entries[0].1)
        }
        _ => panic!("expected object"),
    };
    assert_eq!(changes, vec!["title", "priority"]);
    let events = build_update_events(&before, &after, "dana", "2026-01-01T00:00:00.000Z");
    assert_eq!(events.len(), 2);
    assert_eq!(events[0].event_type, EventType::StateTransition);
    assert_eq!(events[1].event_type, EventType::FieldUpdated);
    assert_eq!(events[1].occurred_at, "2026-01-01T00:00:00.000Z");
    assert!(build_update_events(&before, &before, "dana", "t").is_empty());
}
