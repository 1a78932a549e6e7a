use std::cell::Cell;

use kanbus::agent_metadata::format_agent_provenance_warning;
use kanbus::cli::{
    format_daemon_project_error, format_ready_line, is_issue_blocked, rewrite_alias_args,
    should_check_project_structure, Commands, SetupCommands,
};
use kanbus::config::default_project_configuration;
use kanbus::console_backend::{find_issue_matches, FileStore};
use kanbus::console_local::{
    build_local_auth_bootstrap, determine_port_conflict_action, hash_bytes, hash_payload,
    PortConflictAction,
};
use kanbus::error::KanbusError;
use kanbus::event_history::event_filename;
use kanbus::issue_creation::{short_id_matches, validate_issue_type};
use kanbus::models::{DependencyLink, FieldValue, IssueData};

fn issue(identifier: &str) -> IssueData {
    IssueData {
        identifier: identifier.to_string(),
        title: format!("Issue {identifier}"),
        description: String::new(),
        issue_type: "task".to_string(),
        status: "open".to_string(),
        priority: 2,
        assignee: None,
        creator: None,
        parent: None,
        labels: Vec::new(),
        dependencies: Vec::new(),
        comments: Vec::new(),
        created_at: 0,
        updated_at: 0,
        closed_at: None,
        agent: None,
        right_now_summary: None,
        right_now_updated_at: None,
        custom: Vec::new(),
    }
}

#[test]
fn format_agent_provenance_warning_includes_follow_up() {
    let warning = format_agent_provenance_warning("kanbus-aaa", None, None);
    assert!(warning.contains("agent provenance is incomplete (missing: platform, model, name)"));
    assert!(warning.contains("CONTRIBUTING_AGENT.md"));
    assert!(warning.contains("kbs update kanbus-aaa --agent-platform \"Cursor\""));
    assert!(warning.contains("--agent-name \"Cloud Agent\""));
}

#[test]
fn determine_port_conflict_action_interactive_accepts_retry() {
    let action = determine_port_conflict_action(4242, true, |_, _| true).expect("action");
    assert_eq!(action, PortConflictAction::RetryWithFallback(4243));
}

#[test]
fn determine_port_conflict_action_interactive_declines_retry() {
    let action = determine_port_conflict_action(4242, true, |_, _| false).expect("action");
    assert!(matches!(
        action,
        PortConflictAction::Exit { message } if message.contains("aborted by user")
    ));
}

#[test]
fn determine_port_conflict_action_non_interactive_exits_without_prompt() {
    let prompt_called = Cell::new(false);
    let action = determine_port_conflict_action(4242, false, |_, _| {
        prompt_called.set(true);
        true
    })
    .expect("action");
    assert!(!prompt_called.get());
    assert!(matches!(
        action,
        PortConflictAction::Exit { message } if message.contains("Non-interactive mode")
    ));
}

#[test]
fn determine_port_conflict_action_errors_when_no_fallback_port() {
    let error = determine_port_conflict_action(u16::MAX, true, |_, _| true).expect_err("overflow");
    assert!(error.contains("No valid fallback port"));
}

#[test]
fn hash_helpers_are_deterministic() {
    let first = hash_payload("payload");
    let second = hash_payload("payload");
    let bytes_hash = hash_bytes(b"payload");

    assert_eq!(first, second);
    assert_eq!(first, bytes_hash);
}

#[test]
fn local_auth_bootstrap_preserves_optional_tenant_fields() {
    let scoped = build_local_auth_bootstrap(Some("acct".to_string()), Some("proj".to_string()));
    assert_eq!(scoped.mode, "none");
    assert_eq!(scoped.account.as_deref(), Some("acct"));
    assert_eq!(scoped.project.as_deref(), Some("proj"));
    assert_eq!(scoped.tenant_account_claim_key, "custom:account");
    assert_eq!(scoped.tenant_project_claim_key, "custom:project");
}

#[test]
fn format_daemon_project_error_rewrites_known_messages() {
    let rewritten = format_daemon_project_error(KanbusError::IssueOperation(
        "project not initialized".to_string(),
    ));
    let KanbusError::IssueOperation(message) = rewritten else {
        panic!("expected issue operation");
    };
    assert!(message.contains("Run \"kanbus init\""));
}

#[test]
fn format_daemon_project_error_handles_multiple_projects_and_passthrough() {
    let rewritten = format_daemon_project_error(KanbusError::IssueOperation(
        "multiple projects found under root".to_string(),
    ));
    let KanbusError::IssueOperation(message) = rewritten else {
        panic!("expected issue operation");
    };
    assert!(message.contains("directory containing a single project/ folder"));

    let passthrough =
        format_daemon_project_error(KanbusError::IssueOperation("something else".to_string()));
    let KanbusError::IssueOperation(message) = passthrough else {
        panic!("expected issue operation");
    };
    assert_eq!(message, "something else");
}

#[test]
fn should_check_project_structure_skips_init_and_setup() {
    assert!(!should_check_project_structure(&Commands::Init { local: false }));
    assert!(!should_check_project_structure(&Commands::Setup {
        command: SetupCommands::Agents { force: false },
    }));
    assert!(should_check_project_structure(&Commands::List {
        status: None,
        issue_type: None,
        assignee: None,
        label: None,
        parent: None,
        sort: None,
        search: None,
        project: Vec::new(),
        no_local: false,
        local_only: false,
        limit: None,
        all: false,
        porcelain: false,
        full_ids: false,
    }));
}

#[test]
fn resolve_tenant_root_builds_expected_path() {
    let base = "/tmp/kanbus";
    let path = FileStore::resolve_tenant_root(base, "anthus", "project");
    assert!(path.ends_with("kanbus/anthus/project"));
}

#[test]
fn short_id_match_rejects_invalid_candidates() {
    assert!(!short_id_matches("alpha-abc", "kanbus", "kanbus-abcdef"));
    assert!(!short_id_matches("kanbus-", "kanbus", "kanbus-abcdef"));
    assert!(!short_id_matches("kanbus-abcdefg", "kanbus", "kanbus-abcdef"));
}

#[test]
fn find_issue_matches_exact_and_short_identifier() {
    let issues = vec![issue("kanbus-abcdef"), issue("kanbus-zzzzzz")];

    let exact = find_issue_matches(&issues, "kanbus-abcdef", "kanbus");
    assert_eq!(exact.len(), 1);
    assert_eq!(exact[0].identifier, "kanbus-abcdef");

    let short = find_issue_matches(&issues, "kanbus-abc", "kanbus");
    assert_eq!(short.len(), 1);
    assert_eq!(short[0].identifier, "kanbus-abcdef");
}

#[test]
fn filenames_sort_by_timestamp() {
    let a = event_filename("2026-02-21T06:09:40.100Z", "a");
    let b = event_filename("2026-02-21T06:09:40.200Z", "b");
    assert!(a < b);
}

#[test]
fn validates_issue_type_from_defaults() {
    let config = default_project_configuration();
    assert!(validate_issue_type(&config, "task").is_ok());
    assert!(validate_issue_type(&config, "unknown").is_err());
}

#[test]
fn matches_short_id_rules() {
    assert!(short_id_matches("kanbus-abc", "kanbus", "kanbus-abcdef"));
    assert!(!short_id_matches("other-abc", "kanbus", "kanbus-abcdef"));
    assert!(!short_id_matches("kanbus-", "kanbus", "kanbus-abcdef"));
    assert!(!short_id_matches("kanbus-abcdefg", "kanbus", "kanbus-abcdef"));
    assert!(!short_id_matches("kanbus-abc", "kanbus", "other-abcdef"));
}

#[test]
fn blocked_issue_detection_checks_blocked_by_dependencies() {
    let mut data = issue("kanbus-123456");
    data.dependencies.push(DependencyLink {
        target: "kanbus-parent".to_string(),
        dependency_type: "blocked-by".to_string(),
    });

    assert!(is_issue_blocked(&data));
}

#[test]
fn format_ready_line_includes_project_path_prefix() {
    let mut data = issue("kanbus-123456");
    data.custom.push((
        "project_path".to_string(),
        FieldValue::Text("alpha/project".to_string()),
    ));

    assert_eq!(format_ready_line(&data), "alpha/project kanbus-123456");
}

#[test]
fn format_ready_line_without_project_path() {
    let data = issue("kanbus-654321");
    assert_eq!(format_ready_line(&data), "kanbus-654321");
}

#[test]
fn rewrite_alias_args_rewrites_issue_aliases() {
    let args = vec!["kanbus".to_string(), "epics".to_string(), "--json".to_string()];
    let rewritten = rewrite_alias_args(args);
    assert_eq!(rewritten, vec!["kanbus", "list", "--type", "epic", "--json"]);
}

#[test]
fn rewrite_alias_args_rewrites_task_alias() {
    let args = vec![
        "kanbus".to_string(),
        "tasks".to_string(),
        "--status".to_string(),
        "open".to_string(),
    ];
    let rewritten = rewrite_alias_args(args);
    assert_eq!(
        rewritten,
        vec!["kanbus", "list", "--type", "task", "--status", "open"]
    );
}

#[test]
fn rewrite_alias_args_rewrites_stories_and_bugs_aliases() {
    let stories = rewrite_alias_args(vec!["kanbus".to_string(), "stories".to_string()]);
    assert_eq!(stories, vec!["kanbus", "list", "--type", "story"]);

    let bugs = rewrite_alias_args(vec!["kanbus".to_string(), "bugs".to_string()]);
    assert_eq!(bugs, vec!["kanbus", "list", "--type", "bug"]);
}

#[test]
fn rewrite_alias_args_passthrough_for_non_alias_and_empty_args() {
    let passthrough = rewrite_alias_args(vec![
        "kanbus".to_string(),
        "show".to_string(),
        "kbs-1".to_string(),
    ]);
    assert_eq!(passthrough, vec!["kanbus", "show", "kbs-1"]);

    let no_subcommand = rewrite_alias_args(vec!["kanbus".to_string()]);
    assert_eq!(no_subcommand, vec!["kanbus"]);
}
