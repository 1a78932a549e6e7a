use kanbus::config::default_project_configuration;
use kanbus::error::KanbusError;
use kanbus::issue_creation::{create_issue, resolve_issue_identifier, IssueCreationRequest};
use kanbus::ids::pick_identifier;
use kanbus::issue_update::find_duplicate_title;
use kanbus::models::{IssueData, ProjectConfiguration};

fn sample_issue(identifier: &str, title: &str, issue_type: &str) -> IssueData {
    IssueData {
        identifier: identifier.to_string(),
        title: title.to_string(),
        description: String::new(),
        issue_type: issue_type.to_string(),
        status: "open".to_string(),
        priority: 2,
        assignee: None,
        creator: None,
        parent: None,
        labels: Vec::new(),
        dependencies: Vec::new(),
        comments: Vec::new(),
        created_at: 0,
        updated_at: 0,
        closed_at: None,
        agent: None,
        right_now_summary: None,
        right_now_updated_at: None,
        custom: Vec::new(),
    }
}

fn request(title: &str) -> IssueCreationRequest {
    IssueCreationRequest {
        root: "/repo".to_string(),
        title: title.to_string(),
        issue_type: None,
        priority: None,
        assignee: None,
        parent: None,
        labels: Vec::new(),
        description: None,
        local: false,
        validate: true,
    }
}

fn accept_status(_: &ProjectConfiguration, _: &str, _: &str) -> Result<(), KanbusError> {
    Ok(())
}

fn ids(issues: &[IssueData]) -> Vec<String> {
    issues.iter().map(|issue| issue.identifier.clone()).collect()
}

#[test]
fn finds_duplicate_titles() {
    let files = vec![
        ("broken".to_string(), None),
        ("kanbus-abc".to_string(), Some(sample_issue("kanbus-abc", "Same", "task"))),
    ];
    assert_eq!(
        find_duplicate_title(&files, "Same", "kanbus-new"),
        Some("kanbus-abc".to_string())
    );
    assert_eq!(find_duplicate_title(&files, "Other", "kanbus-new"), None);
    assert_eq!(find_duplicate_title(&files, "Same", "kanbus-abc"), None);
}

#[test]
fn resolves_issue_identifier_exact_or_short() {
    let listed = vec!["kanbus-abcdef".to_string()];
    let exact = resolve_issue_identifier("kanbus", "kanbus-abcdef", true, Ok(listed.clone())).unwrap();
    assert_eq!(exact, "kanbus-abcdef");
    let short = resolve_issue_identifier("kanbus", "kanbus-abc", false, Ok(listed)).unwrap();
    assert_eq!(short, "kanbus-abcdef");
}

#[test]
fn resolve_issue_identifier_handles_missing_and_ambiguous() {
    let listed = vec!["kanbus-abcdef".to_string(), "kanbus-abc999".to_string()];
    let missing = resolve_issue_identifier("kanbus", "kanbus-zzz", false, Ok(listed.clone()));
    assert!(missing.is_err());
    let ambiguous = resolve_issue_identifier("kanbus", "kanbus-abc", false, Ok(listed));
    assert_eq!(
        ambiguous.unwrap_err(),
        KanbusError::IssueOperation("ambiguous short id".to_string())
    );
}

#[test]
fn create_issue_builds_a_new_open_task() {
    let issues = vec![sample_issue("kanbus-epic01", "Epic", "epic")];
    let mut req = request("  New work");
    req.parent = Some("kanbus-epi".to_string());
    req.labels = vec!["ui".to_string()];
    req.description = Some("details".to_string());
    let existing = ids(&issues);
    let result = create_issue(
        &req,
        Ok(default_project_configuration()),
        Ok(issues),
        Ok(existing),
        1_000,
        accept_status,
    )
    .expect("created");
    let issue = result.issue;
    assert!(issue.identifier.starts_with("kanbus-"));
    assert_eq!(issue.identifier.len(), "kanbus-".len() + 36);
    assert_eq!(issue.title, "  New work");
    assert_eq!(issue.issue_type, "task");
    assert_eq!(issue.status, "open");
    assert_eq!(issue.priority, 2);
    assert_eq!(issue.parent.as_deref(), Some("kanbus-epic01"));
    assert_eq!(issue.labels, vec!["ui".to_string()]);
    assert_eq!(issue.description, "details");
    assert_eq!(issue.created_at, 1_000);
    assert_eq!(issue.updated_at, 1_000);
    assert!(issue.closed_at.is_none());
    assert_eq!(result.configuration.project_key, "kanbus");
}

#[test]
fn create_issue_uses_configured_assignee_when_none_is_given() {
    let mut configuration = default_project_configuration();
    configuration.assignee = Some("dana".to_string());
    let result = create_issue(&request("Title"), Ok(configuration), Ok(Vec::new()), Ok(Vec::new()), 5, accept_status)
        .expect("created");
    assert_eq!(result.issue.assignee.as_deref(), Some("dana"));
}

#[test]
fn create_issue_rejects_unknown_type_and_priority() {
    let mut req = request("Title");
    req.issue_type = Some("saga".to_string());
    let error = create_issue(&req, Ok(default_project_configuration()), Ok(Vec::new()), Ok(Vec::new()), 0, accept_status)
        .err()
        .expect("error");
    assert_eq!(error, KanbusError::IssueOperation("unknown issue type".to_string()));
    let mut req = request("Title");
    req.priority = Some(9);
    let error = create_issue(&req, Ok(default_project_configuration()), Ok(Vec::new()), Ok(Vec::new()), 0, accept_status)
        .err()
        .expect("error");
    assert_eq!(error, KanbusError::IssueOperation("invalid priority".to_string()));
}

#[test]
fn create_issue_rejects_duplicate_titles_and_bad_parents() {
    let issues = vec![sample_issue("kanbus-abc", "Same", "task")];
    let error = create_issue(
        &request(" same "),
        Ok(default_project_configuration()),
        Ok(issues.clone()),
        Ok(ids(&issues)),
        0,
        accept_status,
    )
    .err()
    .expect("error");
    assert_eq!(
        error,
        KanbusError::IssueOperation("duplicate title: \" same \" already exists as kanbus-abc".to_string())
    );
    let mut req = request("Child");
    req.issue_type = Some("epic".to_string());
    req.parent = Some("kanbus-abc".to_string());
    let error = create_issue(&req, Ok(default_project_configuration()), Ok(issues.clone()), Ok(ids(&issues)), 0, accept_status)
        .err()
        .expect("error");
    assert_eq!(
        error,
        KanbusError::InvalidHierarchy("invalid parent-child relationship: 'task' cannot have child 'epic'".to_string())
    );
    let mut req = request("Child");
    req.parent = Some("kanbus-zzz".to_string());
    let error = create_issue(&req, Ok(default_project_configuration()), Ok(issues.clone()), Ok(ids(&issues)), 0, accept_status)
        .err()
        .expect("error");
    assert_eq!(error, KanbusError::IssueOperation("not found".to_string()));
}

#[test]
fn create_issue_passes_on_loading_and_status_errors() {
    let error = create_issue(
        &request("Title"),
        Err(KanbusError::Configuration("broken".to_string())),
        Ok(Vec::new()),
        Ok(Vec::new()),
        0,
        accept_status,
    )
    .err()
    .expect("error");
    assert_eq!(error, KanbusError::Configuration("broken".to_string()));
    let error = create_issue(&request("Title"), Ok(default_project_configuration()), Ok(Vec::new()), Ok(Vec::new()), 0, |_: &ProjectConfiguration, _: &str, status: &str| {
        Err(KanbusError::InvalidTransition(format!("bad status {status}")))
    })
    .err()
    .expect("error");
    assert_eq!(error, KanbusError::InvalidTransition("bad status open".to_string()));
    let error = create_issue(
        &request("Title"),
        Ok(default_project_configuration()),
        Ok(Vec::new()),
        Err(KanbusError::Io("unreadable".to_string())),
        0,
        accept_status,
    )
    .err()
    .expect("error");
    assert_eq!(error, KanbusError::Io("unreadable".to_string()));
}

#[test]
fn create_issue_without_validation_skips_checks() {
    let issues = vec![sample_issue("kanbus-abc", "Same", "task")];
    let mut req = request("Same");
    req.validate = false;
    req.issue_type = Some("saga".to_string());
    let result = create_issue(&req, Ok(default_project_configuration()), Ok(issues.clone()), Ok(ids(&issues)), 0, |_: &ProjectConfiguration, _: &str, _: &str| {
        Err(KanbusError::InvalidTransition("never asked".to_string()))
    })
    .expect("created");
    assert_eq!(result.issue.issue_type, "saga");
    assert_ne!(result.issue.identifier, "kanbus-abc");
}

#[test]
fn pick_identifier_takes_first_free_draw() {
    let existing = vec!["kanbus-aaa".to_string(), "kanbus-bbb".to_string()];
    let drawn = vec!["aaa".to_string(), "ccc".to_string(), "bbb".to_string()];
    assert_eq!(pick_identifier("kanbus", &drawn, &existing), Ok("kanbus-ccc".to_string()));
    let taken = vec!["aaa".to_string(), "bbb".to_string()];
    assert_eq!(
        pick_identifier("kanbus", &taken, &existing),
        Err(kanbus::error::KanbusError::IdGenerationFailed(
            "unable to generate unique id after 10 attempts".to_string()
        ))
    );
}

#[test]
fn slug_spells_alphabet_positions() {
    assert_eq!(kanbus::beads_write::slug_from_indices(&vec![0, 25, 35]), "az9");
    let slug = kanbus::beads_write::generate_slug();
    assert_eq!(slug.len(), 3);
    assert!(slug.chars().all(|c| c.is_ascii_lowercase() || c.is_ascii_digit()));
}
