use kanbus::agent_metadata::{parse_settings_json, resolve_agent_metadata, settings_from_json, AgentMetadataRequest};
use kanbus::json_value::{compact_json_text, JsonValue};
use kanbus::error::KanbusError;
use kanbus::index::{build_index, build_index_from_cache, Groups};
use kanbus::issue_lookup::{find_matching_issues, resolve_issue_lookup};
use kanbus::models::{AgentMetadata, DependencyLink, FieldValue, IssueData};

fn issue(identifier: &str, status: &str) -> IssueData {
    IssueData {
        identifier: identifier.to_string(),
        title: format!("Issue {identifier}"),
        description: String::new(),
        issue_type: "task".to_string(),
        status: status.to_string(),
        priority: 2,
        assignee: None,
        creator: None,
        parent: None,
        labels: Vec::new(),
        dependencies: Vec::new(),
        comments: Vec::new(),
        created_at: 0,
        updated_at: 0,
        closed_at: None,
        agent: None,
        right_now_summary: None,
        right_now_updated_at: None,
        custom: Vec::new(),
    }
}

fn group<'a>(groups: &'a Groups, key: &str) -> Option<&'a Vec<usize>> {
    groups
        .iter()
        .find(|(name, _)| name == key)
        .map(|(_, positions)| positions)
}

fn sample_issues() -> Vec<IssueData> {
    let mut first = issue("kanbus-a", "open");
    first.labels = vec!["ui".to_string(), "api".to_string(), "ui".to_string()];
    first.parent = Some("kanbus-epic".to_string());
    first.dependencies = vec![
        DependencyLink {
            target: "kanbus-b".to_string(),
            dependency_type: "blocked-by".to_string(),
        },
        DependencyLink {
            target: "kanbus-c".to_string(),
            dependency_type: "relates-to".to_string(),
        },
    ];
    let mut second = issue("kanbus-b", "closed");
    second.issue_type = "bug".to_string();
    second.labels = vec!["api".to_string()];
    let mut third = issue("kanbus-a", "open");
    third.dependencies = vec![DependencyLink {
        target: "kanbus-b".to_string(),
        dependency_type: "blocked-by".to_string(),
    }];
    vec![first, second, third]
}

#[test]
fn index_groups_issues_by_each_key() {
    let index = build_index(sample_issues());
    assert_eq!(index.issues.len(), 3);
    assert_eq!(group(&index.by_id, "kanbus-a"), Some(&vec![2]));
    assert_eq!(group(&index.by_id, "kanbus-b"), Some(&vec![1]));
    assert_eq!(group(&index.by_status, "open"), Some(&vec![0, 2]));
    assert_eq!(group(&index.by_status, "closed"), Some(&vec![1]));
    assert_eq!(group(&index.by_type, "task"), Some(&vec![0, 2]));
    assert_eq!(group(&index.by_type, "bug"), Some(&vec![1]));
    assert_eq!(group(&index.by_parent, "kanbus-epic"), Some(&vec![0]));
    assert_eq!(group(&index.by_label, "ui"), Some(&vec![0, 0]));
    assert_eq!(group(&index.by_label, "api"), Some(&vec![0, 1]));
    assert_eq!(group(&index.reverse_dependencies, "kanbus-b"), Some(&vec![0, 2]));
    assert_eq!(group(&index.reverse_dependencies, "kanbus-c"), None);
}

#[test]
fn empty_index_has_no_groups() {
    let index = build_index(Vec::new());
    assert!(index.by_id.is_empty());
    assert!(index.by_status.is_empty());
    assert!(index.reverse_dependencies.is_empty());
}

#[test]
fn cached_reverse_dependencies_skip_unknown_issues() {
    let reverse = vec![
        (
            "kanbus-b".to_string(),
            vec!["kanbus-a".to_string(), "kanbus-missing".to_string()],
        ),
        ("kanbus-z".to_string(), vec!["kanbus-missing".to_string()]),
    ];
    let index = build_index_from_cache(sample_issues(), reverse);
    assert_eq!(group(&index.by_id, "kanbus-a"), Some(&vec![2]));
    assert_eq!(group(&index.reverse_dependencies, "kanbus-b"), Some(&vec![2]));
    assert_eq!(group(&index.reverse_dependencies, "kanbus-z"), Some(&vec![]));
    assert_eq!(group(&index.by_label, "ui"), Some(&vec![0, 0]));
}

#[test]
fn lookup_returns_exact_identifier() {
    let result = resolve_issue_lookup("kanbus-abc", true, Err(KanbusError::Io("unread".to_string())));
    assert_eq!(result.unwrap(), "kanbus-abc");
}

#[test]
fn lookup_reports_read_failure() {
    let result = resolve_issue_lookup("abc", false, Err(KanbusError::Io("unread".to_string())));
    assert_eq!(result.unwrap_err().to_message(), "unread");
}

#[test]
fn lookup_resolves_unique_abbreviation() {
    let stems = vec!["kanbus-abcdef".to_string(), "kanbus-123456".to_string()];
    assert_eq!(find_matching_issues(&stems, "kanbus-abc"), vec!["kanbus-abcdef".to_string()]);
    let result = resolve_issue_lookup("kanbus-abc", false, Ok(stems));
    assert_eq!(result.unwrap(), "kanbus-abcdef");
}

#[test]
fn lookup_reports_missing_and_ambiguous() {
    let stems = vec!["kanbus-abc111".to_string(), "kanbus-abc222".to_string()];
    let missing = resolve_issue_lookup("kanbus-zzz", false, Ok(stems.clone()));
    assert_eq!(missing.unwrap_err().to_message(), "not found");
    let ambiguous = resolve_issue_lookup("kanbus-abc", false, Ok(stems));
    assert_eq!(
        ambiguous.unwrap_err().to_message(),
        "ambiguous identifier, matches: kanbus-abc111, kanbus-abc222"
    );
}

fn measured(agent: &AgentMetadata) -> Result<usize, String> {
    Ok(agent.platform.len() + agent.model.len() + 32)
}

fn request(platform: Option<&str>, model: Option<&str>, name: Option<&str>) -> AgentMetadataRequest {
    AgentMetadataRequest {
        platform: platform.map(str::to_string),
        model: model.map(str::to_string),
        name: name.map(str::to_string),
        settings_json: None,
    }
}

#[test]
fn agent_metadata_falls_back_to_environment() {
    let flags = request(None, Some("model-a"), None);
    let environment = request(Some("Cursor Agent"), Some("model-b"), Some("  session  "));
    let agent = resolve_agent_metadata(&flags, &environment, measured)
        .expect("metadata")
        .expect("present");
    assert_eq!(agent.platform, "cursor_agent");
    assert_eq!(agent.model, "model-a");
    assert_eq!(agent.name, Some("session".to_string()));
}

#[test]
fn agent_metadata_absent_without_flags() {
    let empty = request(None, None, None);
    let result = resolve_agent_metadata(&empty, &empty, measured).expect("ok");
    assert!(result.is_none());
}

#[test]
fn agent_metadata_reads_settings_json() {
    let mut flags = request(Some("cursor"), Some("model"), None);
    flags.settings_json = Some("{\"z\": [1, \"x\"], \"a\": 1, \"on\": true, \"t\": \"high\", \"n\": null}".to_string());
    let agent = resolve_agent_metadata(&flags, &request(None, None, None), measured)
        .expect("metadata")
        .expect("present");
    assert_eq!(
        agent.settings,
        vec![
            ("a".to_string(), FieldValue::Raw("1".to_string())),
            ("n".to_string(), FieldValue::Null),
            ("on".to_string(), FieldValue::Flag(true)),
            ("t".to_string(), FieldValue::Text("high".to_string())),
            ("z".to_string(), FieldValue::Raw("[1,\"x\"]".to_string())),
        ]
    );
}

#[test]
fn agent_metadata_rejects_long_name() {
    let flags = request(Some("cursor"), Some("model"), Some(&"n".repeat(129)));
    let error = resolve_agent_metadata(&flags, &request(None, None, None), measured)
        .expect_err("too long");
    assert_eq!(error.to_message(), "invalid agent name");
}

#[test]
fn snapshot_issues_sorted_by_identifier_stably() {
    let mut second_b = issue("kanbus-b", "closed");
    second_b.title = "second b".to_string();
    let issues = vec![issue("kanbus-c", "open"), issue("kanbus-b", "open"), issue("kanbus-a", "open"), second_b];
    let sorted = kanbus::console_backend::sort_issues_by_identifier(issues);
    let order: Vec<(String, String)> = sorted
        .iter()
        .map(|issue| (issue.identifier.clone(), issue.status.clone()))
        .collect();
    assert_eq!(
        order,
        vec![
            ("kanbus-a".to_string(), "open".to_string()),
            ("kanbus-b".to_string(), "open".to_string()),
            ("kanbus-b".to_string(), "closed".to_string()),
            ("kanbus-c".to_string(), "open".to_string()),
        ]
    );
}

#[test]
fn file_store_build_snapshot_payload_sorts_issue_identifiers() {
    let sorted = kanbus::console_backend::sort_issues_by_identifier(vec![
        issue("kanbus-b", "open"),
        issue("kanbus-a", "open"),
    ]);
    let ids: Vec<&str> = sorted.iter().map(|issue| issue.identifier.as_str()).collect();
    assert_eq!(ids, vec!["kanbus-a", "kanbus-b"]);
}

#[test]
fn agent_metadata_rejects_bad_settings_json() {
    let mut flags = request(Some("cursor"), Some("model"), None);
    flags.settings_json = Some("[1, 2]".to_string());
    let error = resolve_agent_metadata(&flags, &request(None, None, None), measured).expect_err("not an object");
    assert_eq!(error.to_message(), "invalid agent settings JSON: expected object");
    flags.settings_json = Some("{oops".to_string());
    let error = resolve_agent_metadata(&flags, &request(None, None, None), measured).expect_err("invalid");
    assert!(error.to_message().starts_with("invalid agent settings JSON: "));
    assert_ne!(error.to_message(), "invalid agent settings JSON: expected object");
}

#[test]
fn settings_json_blank_gives_no_settings() {
    assert_eq!(parse_settings_json(None).expect("ok"), Vec::new());
    assert_eq!(parse_settings_json(Some("   ")).expect("ok"), Vec::new());
}

#[test]
fn settings_json_sorts_keys_and_writes_compact_values() {
    let settings = parse_settings_json(Some(" {\"b\": {\"k\": \"a\\\"q\\n\"}, \"a\": 2.5} ")).expect("ok");
    assert_eq!(
        settings,
        vec![
            ("a".to_string(), FieldValue::Raw("2.5".to_string())),
            ("b".to_string(), FieldValue::Raw("{\"k\":\"a\\\"q\\n\"}".to_string())),
        ]
    );
}

#[test]
fn settings_from_parsed_values() {
    let later_wins = settings_from_json(Ok(JsonValue::Object(vec![
        ("k".to_string(), JsonValue::Bool(false)),
        ("a".to_string(), JsonValue::Text("x".to_string())),
        ("k".to_string(), JsonValue::Array(vec![JsonValue::Null, JsonValue::Number("3".to_string())])),
    ])))
    .expect("ok");
    assert_eq!(
        later_wins,
        vec![
            ("a".to_string(), FieldValue::Text("x".to_string())),
            ("k".to_string(), FieldValue::Raw("[null,3]".to_string())),
        ]
    );
    let error = settings_from_json(Err("bad".to_string())).expect_err("error");
    assert_eq!(error.to_message(), "invalid agent settings JSON: bad");
    let error = settings_from_json(Ok(JsonValue::Text("x".to_string()))).expect_err("error");
    assert_eq!(error.to_message(), "invalid agent settings JSON: expected object");
}

#[test]
fn compact_json_escapes_text() {
    let value = JsonValue::Object(vec![(
        "q\"".to_string(),
        JsonValue::Array(vec![JsonValue::Text("\t\u{1}".to_string()), JsonValue::Bool(true)]),
    )]);
    assert_eq!(compact_json_text(&value), "{\"q\\\"\":[\"\\t\\u0001\",true]}");
}
