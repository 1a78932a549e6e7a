use kanbus::config::default_project_configuration;
use kanbus::config_loader::validate_project_configuration;
use kanbus::daemon_protocol::{
    parse_version, validate_protocol_compatibility, PayloadValue, RequestEnvelope,
};
use kanbus::daemon_server::handle_request;
use kanbus::dependencies::{add_dependency, ensure_no_cycle, list_ready_issues, remove_dependency};
use kanbus::error::KanbusError;
use kanbus::ids::{format_issue_key, generate_issue_identifier, IssueIdentifierRequest};
use kanbus::issue_comment::{delete_comment, update_comment};
use kanbus::issue_display::format_issue_for_display;
use kanbus::issue_line::{compute_widths, format_issue_line};
use kanbus::issue_update::{edit_labels, update_issue, IssueUpdateRequest};
use kanbus::models::{DependencyLink, IssueComment, IssueData};

fn issue(identifier: &str) -> IssueData {
    IssueData {
        identifier: identifier.to_string(),
        title: format!("Issue {identifier}"),
        description: String::new(),
        issue_type: "task".to_string(),
        status: "open".to_string(),
        priority: 2,
        assignee: None,
        creator: None,
        parent: None,
        labels: Vec::new(),
        dependencies: Vec::new(),
        comments: Vec::new(),
        created_at: 0,
        updated_at: 0,
        closed_at: None,
        agent: None,
        right_now_summary: None,
        right_now_updated_at: None,
        custom: Vec::new(),
    }
}

fn blocked_by(source: &str, target: &str) -> IssueData {
    let mut data = issue(source);
    data.dependencies.push(DependencyLink {
        target: target.to_string(),
        dependency_type: "blocked-by".to_string(),
    });
    data
}

fn strings(items: &[&str]) -> Vec<String> {
    items.iter().map(|item| item.to_string()).collect()
}

fn update_request() -> IssueUpdateRequest {
    IssueUpdateRequest {
        title: None,
        description: None,
        status: None,
        assignee: None,
        priority: None,
        claim: false,
        validate: true,
        add_labels: Vec::new(),
        remove_labels: Vec::new(),
        set_labels: None,
        parent: None,
        issue_type: None,
        agent: None,
    }
}

#[test]
fn default_configuration_is_valid() {
    assert!(validate_project_configuration(&default_project_configuration()).is_empty());
}

#[test]
fn format_issue_key_shortens_identifiers() {
    assert_eq!(format_issue_key("kanbus-abcdef123", false), "kanbus-abcdef");
    assert_eq!(format_issue_key("kanbus-abcdef123", true), "abcdef");
    assert_eq!(format_issue_key("tskl-abc-def.2", false), "tskl-abcdef.2");
    assert_eq!(format_issue_key("12345", false), "12345");
}

#[test]
fn protocol_versions_parse_and_compare() {
    assert_eq!(parse_version("1.0"), Ok((1, 0)));
    assert_eq!(
        parse_version("one"),
        Err(KanbusError::ProtocolError("invalid protocol version".to_string()))
    );
    assert_eq!(
        validate_protocol_compatibility("2.0", "1.0"),
        Err(KanbusError::ProtocolError("protocol version mismatch".to_string()))
    );
    assert_eq!(
        validate_protocol_compatibility("1.2", "1.0"),
        Err(KanbusError::ProtocolError("protocol version unsupported".to_string()))
    );
    assert_eq!(validate_protocol_compatibility("1.0", "1.1"), Ok(()));
}

#[test]
fn daemon_answers_ping_shutdown_and_unknown_actions() {
    let request = |action: &str| RequestEnvelope {
        protocol_version: "1.0".to_string(),
        request_id: "req-1".to_string(),
        action: action.to_string(),
        payload: Vec::new(),
    };
    let (ping, stop) = handle_request(request("ping"), || Ok(Vec::new()));
    assert!(!stop);
    assert_eq!(ping.status, "ok");
    assert_eq!(ping.request_id, "req-1");
    let (_, stop) = handle_request(request("shutdown"), || Ok(Vec::new()));
    assert!(stop);
    let (listed, _) = handle_request(request("index.list"), || Ok(vec![issue("kanbus-a")]));
    match listed.result.as_ref().map(|entries| &entries[0].1) {
        Some(PayloadValue::Issues(issues)) => assert_eq!(issues.len(), 1),
        _ => panic!("expected issues"),
    }
    let (unknown, _) = handle_request(request("dance"), || Ok(Vec::new()));
    assert_eq!(unknown.status, "error");
    assert_eq!(unknown.error.as_ref().map(|e| e.code.as_str()), Some("unknown_action"));
    let mut old = request("ping");
    old.protocol_version = "2.0".to_string();
    let (mismatch, _) = handle_request(old, || Ok(Vec::new()));
    assert_eq!(mismatch.error.as_ref().map(|e| e.code.as_str()), Some("protocol_version_mismatch"));
}

#[test]
fn adding_a_blocking_dependency_refuses_cycles() {
    let issues = vec![blocked_by("kanbus-a", "kanbus-b"), issue("kanbus-b")];
    let error = add_dependency(
        "kanbus-b",
        "kanbus-a",
        "blocked-by",
        Ok(issue("kanbus-b")),
        Ok(issues[0].clone()),
        Ok(issues.clone()),
    )
    .unwrap_err();
    assert_eq!(error, KanbusError::IssueOperation("cycle detected".to_string()));
    assert!(ensure_no_cycle(&issues, "kanbus-b", "kanbus-a").is_err());
    assert!(ensure_no_cycle(&issues, "kanbus-c", "kanbus-a").is_ok());
    let related = add_dependency(
        "kanbus-b",
        "kanbus-a",
        "relates-to",
        Ok(issue("kanbus-b")),
        Ok(issues[0].clone()),
        Ok(issues.clone()),
    )
    .expect("relates-to never blocks");
    assert_eq!(related.dependencies.len(), 1);
    let invalid = add_dependency("kanbus-b", "kanbus-a", "depends", Ok(issue("kanbus-b")), Ok(issue("kanbus-a")), Ok(issues))
        .unwrap_err();
    assert_eq!(invalid, KanbusError::IssueOperation("invalid dependency type".to_string()));
}

#[test]
fn removing_a_dependency_drops_the_link() {
    let source = blocked_by("kanbus-a", "kanbus-b");
    let updated = remove_dependency("kanbus-a", "kanbus-b", "blocked-by", Ok(source)).expect("removed");
    assert!(updated.dependencies.is_empty());
}

#[test]
fn ready_issues_exclude_closed_and_blocked() {
    let mut closed = issue("kanbus-c");
    closed.status = "closed".to_string();
    let ready = list_ready_issues(
        true,
        false,
        Ok(vec![vec![issue("kanbus-a"), blocked_by("kanbus-b", "kanbus-a"), closed]]),
    )
    .expect("ready");
    let ids: Vec<&str> = ready.iter().map(|issue| issue.identifier.as_str()).collect();
    assert_eq!(ids, vec!["kanbus-a"]);
    let conflict = list_ready_issues(false, true, Ok(Vec::new())).unwrap_err();
    assert_eq!(conflict, KanbusError::IssueOperation("local-only conflicts with no-local".to_string()));
}

#[test]
fn label_edits_add_once_and_remove_ignoring_case() {
    let current = strings(&["ui"]);
    let added = edit_labels(&current, &strings(&["UI", " api ", ""]), &[], None);
    assert_eq!(added, strings(&["ui", "api"]));
    let again = edit_labels(&added, &strings(&["UI", " api ", ""]), &[], None);
    assert_eq!(again, added);
    let removed = edit_labels(&added, &[], &strings(&[" API "]), None);
    assert_eq!(removed, strings(&["ui"]));
    let set = edit_labels(&added, &[], &[], Some(" x, ,y "));
    assert_eq!(set, strings(&["x", "y"]));
}

#[test]
fn update_issue_changes_requested_fields() {
    let mut request = update_request();
    request.title = Some("  New title ".to_string());
    request.priority = Some(1);
    request.add_labels = strings(&["ops"]);
    let result = update_issue(
        Ok(issue("kanbus-a")),
        Ok(default_project_configuration()),
        Ok(vec![issue("kanbus-a"), issue("kanbus-b")]),
        Ok(issue_files(vec![issue("kanbus-a"), issue("kanbus-b")])),
        request,
        |issue: IssueData, _: String, _: String| Ok(issue),
    )
    .expect("updated");
    assert!(result.changed);
    assert_eq!(result.issue.title, "New title");
    assert_eq!(result.issue.priority, 1);
    assert_eq!(result.issue.labels, strings(&["ops"]));
}

#[test]
fn update_issue_reports_errors_and_no_ops() {
    let nothing = update_issue(
        Ok(issue("kanbus-a")),
        Ok(default_project_configuration()),
        Ok(Vec::new()),
        Ok(issue_files(Vec::new())),
        update_request(),
        |issue: IssueData, _: String, _: String| Ok(issue),
    )
    .err()
    .expect("error");
    assert_eq!(nothing, KanbusError::IssueOperation("no updates requested".to_string()));
    let mut same = update_request();
    same.title = Some("Issue kanbus-a".to_string());
    let unchanged = update_issue(
        Ok(issue("kanbus-a")),
        Ok(default_project_configuration()),
        Ok(vec![issue("kanbus-a")]),
        Ok(issue_files(vec![issue("kanbus-a")])),
        same,
        |issue: IssueData, _: String, _: String| Ok(issue),
    )
    .expect("unchanged");
    assert!(!unchanged.changed);
    let mut duplicate = update_request();
    duplicate.title = Some("issue KANBUS-B".to_string());
    let error = update_issue(
        Ok(issue("kanbus-a")),
        Ok(default_project_configuration()),
        Ok(vec![issue("kanbus-a"), issue("kanbus-b")]),
        Ok(issue_files(vec![issue("kanbus-a"), issue("kanbus-b")])),
        duplicate,
        |issue: IssueData, _: String, _: String| Ok(issue),
    )
    .err()
    .expect("duplicate");
    assert_eq!(
        error,
        KanbusError::IssueOperation("duplicate title: \"issue KANBUS-B\" already exists as kanbus-b".to_string())
    );
    let mut moved = update_request();
    moved.status = Some("in_progress".to_string());
    let refused = update_issue(
        Ok(issue("kanbus-a")),
        Ok(default_project_configuration()),
        Ok(Vec::new()),
        Ok(issue_files(Vec::new())),
        moved,
        |_: IssueData, _: String, status: String| Err(KanbusError::InvalidTransition(format!("no way to {status}"))),
    )
    .err()
    .expect("refused");
    assert_eq!(refused, KanbusError::InvalidTransition("no way to in_progress".to_string()));
}

#[test]
fn comments_are_updated_and_deleted_by_prefix() {
    let mut data = issue("kanbus-a");
    data.comments.push(IssueComment {
        id: Some("abc123".to_string()),
        author: "dana".to_string(),
        text: Some("first".to_string()),
        created_at: 5,
        comment_type: "default".to_string(),
        data: Vec::new(),
        agent: None,
    });
    let updated = update_comment(Ok(data.clone()), "abc", Some("second"), None).expect("updated");
    assert_eq!(updated.comments[0].text.as_deref(), Some("second"));
    let (remaining, removed) = delete_comment(Ok(updated), "abc1").expect("deleted");
    assert!(remaining.comments.is_empty());
    assert_eq!(removed.author, "dana");
    assert!(update_comment(Ok(data), "zzz", Some("x"), None).is_err());
}

#[test]
fn generated_identifiers_are_new_uuids_under_the_key() {
    let request = IssueIdentifierRequest {
        title: "Title".to_string(),
        existing_ids: strings(&["kanbus-x"]),
        prefix: "kanbus".to_string(),
    };
    let generated = generate_issue_identifier(&request).expect("generated").identifier;
    assert!(generated.starts_with("kanbus-"));
    let uuid = &generated["kanbus-".len()..];
    assert_eq!(uuid.len(), 36);
    assert_eq!(&uuid[14..15], "4");
    assert_ne!(generated, "kanbus-x");
}

#[test]
fn issue_lines_and_display_carry_the_fields() {
    let mut data = issue("kanbus-abcdef123");
    data.title = "Fix the thing".to_string();
    let configuration = default_project_configuration();
    let widths = compute_widths(&[data.clone()], false);
    let plain = format_issue_line(&data, Some(&widths), false, false, Some(&configuration), false);
    assert!(plain.contains("kanbus-abcdef"));
    assert!(plain.contains("Fix the thing"));
    assert!(!plain.contains('\u{1b}'));
    let colored = format_issue_line(&data, Some(&widths), false, false, Some(&configuration), true);
    assert!(colored.contains("\u{1b}["));
    assert_ne!(colored, plain);
    let shown = format_issue_for_display(&data, Some(&configuration), false, false);
    assert!(shown.contains("Fix the thing"));
    assert!(shown.contains("kanbus-abcdef"));
}

fn issue_files(issues: Vec<IssueData>) -> Vec<(String, Option<IssueData>)> {
    issues.into_iter().map(|issue| (issue.identifier.clone(), Some(issue))).collect()
}
