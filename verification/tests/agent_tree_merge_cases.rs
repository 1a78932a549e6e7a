use std::collections::HashSet;

use kanbus::agent_metadata::build_agent_metadata;
use kanbus::cli::merge_issue_views;
use kanbus::console_backend::active_right_now_tree;
use kanbus::models::{AgentMetadata, DependencyLink, FieldValue, IssueComment, IssueData};

const ACTIVE: &str = "in_progress";

fn issue(identifier: &str) -> IssueData {
    IssueData {
        identifier: identifier.to_string(),
        title: format!("Issue {identifier}"),
        description: String::new(),
        issue_type: "task".to_string(),
        status: "open".to_string(),
        priority: 2,
        assignee: None,
        creator: None,
        parent: None,
        labels: Vec::new(),
        dependencies: Vec::new(),
        comments: Vec::new(),
        created_at: 0,
        updated_at: 0,
        closed_at: None,
        agent: None,
        right_now_summary: None,
        right_now_updated_at: None,
        custom: Vec::new(),
    }
}

fn measured(agent: &AgentMetadata) -> Result<usize, String> {
    Ok(agent.platform.len() + agent.model.len() + 32)
}

fn comment(author: &str, text: &str, created_at: i64) -> IssueComment {
    IssueComment {
        id: None,
        author: author.to_string(),
        text: Some(text.to_string()),
        created_at,
        comment_type: "comment".to_string(),
        data: Vec::new(),
        agent: None,
    }
}

#[test]
fn build_agent_metadata_requires_platform_and_model_together() {
    let error = build_agent_metadata(Some("cursor"), None, Vec::new(), None, measured)
        .expect_err("expected error");
    assert_eq!(
        error.to_message(),
        "agent metadata requires both platform and model"
    );
}

#[test]
fn reject_secret_like_settings_keys() {
    let settings = vec![(
        "openai_api_key".to_string(),
        FieldValue::Text("secret".to_string()),
    )];
    let error = build_agent_metadata(Some("cursor"), Some("model"), settings, None, measured)
        .expect_err("expected error");
    assert_eq!(
        error.to_message(),
        "agent settings must not contain secret-like keys"
    );
}

#[test]
fn title_case_platform_with_spaces_normalizes() {
    let agent = build_agent_metadata(
        Some("Cursor Agent"),
        Some("Composer 2.5"),
        Vec::new(),
        None,
        measured,
    )
    .expect("expected metadata")
    .expect("metadata present");
    assert_eq!(agent.platform, "cursor_agent");
    assert_eq!(agent.model, "Composer 2.5");
}

#[test]
fn accept_unknown_settings_keys_and_values() {
    let settings = vec![(
        "reasoning_effort".to_string(),
        FieldValue::Text("turbo".to_string()),
    )];
    let agent = build_agent_metadata(Some("cursor"), Some("model"), settings, None, measured)
        .expect("expected metadata")
        .expect("metadata present");
    let value = agent
        .settings
        .iter()
        .find(|(key, _)| key == "reasoning_effort")
        .map(|(_, value)| value.clone());
    assert_eq!(value, Some(FieldValue::Text("turbo".to_string())));
}

#[test]
fn build_agent_metadata_returns_none_without_inputs() {
    let agent = build_agent_metadata(Some("  "), None, Vec::new(), Some(""), measured)
        .expect("no error");
    assert!(agent.is_none());
}

#[test]
fn build_agent_metadata_rejects_oversized_metadata() {
    let error = build_agent_metadata(Some("cursor"), Some("model"), Vec::new(), None, |_| Ok(2049))
        .expect_err("expected error");
    assert_eq!(error.to_message(), "agent metadata exceeds maximum size");
    let fits = build_agent_metadata(Some("cursor"), Some("model"), Vec::new(), None, |_| Ok(2048))
        .expect("fits");
    assert!(fits.is_some());
}

#[test]
fn build_agent_metadata_reports_serializer_errors() {
    let error = build_agent_metadata(Some("cursor"), Some("model"), Vec::new(), None, |_| {
        Err("boom".to_string())
    })
    .expect_err("expected error");
    assert_eq!(error.to_message(), "invalid agent metadata: boom");
}

#[test]
fn build_agent_metadata_rejects_long_names_and_bad_platforms() {
    let long_name = "n".repeat(129);
    let error = build_agent_metadata(Some("cursor"), Some("model"), Vec::new(), Some(&long_name), measured)
        .expect_err("expected error");
    assert_eq!(error.to_message(), "invalid agent name");
    let error = build_agent_metadata(Some("cursor!"), Some("model"), Vec::new(), None, measured)
        .expect_err("expected error");
    assert_eq!(error.to_message(), "invalid agent platform");
    let agent = build_agent_metadata(Some("cursor"), Some(" model "), Vec::new(), Some(" Cloud Agent "), measured)
        .expect("ok")
        .expect("present");
    assert_eq!(agent.model, "model");
    assert_eq!(agent.name.as_deref(), Some("Cloud Agent"));
}

#[test]
fn test_merge_issue_views_full_coverage() {
    let mut beads = issue("test-1");
    beads.title = "beads title".to_string();
    beads.priority = 1;
    beads.dependencies = vec![DependencyLink {
        target: "test-2".to_string(),
        dependency_type: "blocks".to_string(),
    }];
    beads.comments = vec![comment("alice", "c1", 1_577_836_800_000_000_000)];

    let mut project = issue("test-1");
    project.title = "project title".to_string();
    project.description = "proj desc".to_string();
    project.priority = 1;
    project.assignee = Some("bob".to_string());
    project.creator = Some("alice".to_string());
    project.parent = Some("epic-1".to_string());
    project.labels = vec!["bug".to_string()];
    project.dependencies = vec![
        DependencyLink {
            target: "test-2".to_string(),
            dependency_type: "blocks".to_string(),
        },
        DependencyLink {
            target: "test-3".to_string(),
            dependency_type: "relates-to".to_string(),
        },
    ];
    project.comments = vec![
        comment("alice", "c1", 1_577_836_800_000_000_000),
        comment("bob", "c2", 1_577_923_200_000_000_000),
    ];
    project.custom = vec![("k1".to_string(), FieldValue::Text("v1".to_string()))];

    let merged = merge_issue_views(beads, project);
    assert_eq!(merged.description, "proj desc");
    assert_eq!(merged.parent.as_deref(), Some("epic-1"));
    assert_eq!(merged.assignee.as_deref(), Some("bob"));
    assert_eq!(merged.creator.as_deref(), Some("alice"));
    assert_eq!(merged.labels, vec!["bug".to_string()]);
    assert_eq!(merged.dependencies.len(), 2);
    assert_eq!(merged.comments.len(), 2);
    let k1 = merged
        .custom
        .iter()
        .find(|(key, _)| key == "k1")
        .map(|(_, value)| value.clone());
    assert_eq!(k1, Some(FieldValue::Text("v1".to_string())));
}

#[test]
fn merge_issue_views_keeps_beads_values_and_orders_comments_by_time() {
    let mut beads = issue("test-1");
    beads.description = "beads desc".to_string();
    beads.parent = Some("epic-b".to_string());
    beads.updated_at = 10;
    beads.closed_at = Some(5);
    beads.comments = vec![comment("a", "late", 30), comment("b", "early", 10)];
    beads.custom = vec![("k".to_string(), FieldValue::Flag(true))];
    let mut project = issue("test-1");
    project.description = "project desc".to_string();
    project.parent = Some("epic-p".to_string());
    project.updated_at = 20;
    project.closed_at = Some(7);
    project.comments = vec![comment("c", "middle", 20), comment("d", "tie", 10)];
    project.custom = vec![
        ("k".to_string(), FieldValue::Flag(false)),
        ("j".to_string(), FieldValue::Null),
    ];
    let merged = merge_issue_views(beads, project);
    assert_eq!(merged.description, "beads desc");
    assert_eq!(merged.parent.as_deref(), Some("epic-b"));
    assert_eq!(merged.updated_at, 20);
    assert_eq!(merged.closed_at, Some(5));
    let texts: Vec<&str> = merged
        .comments
        .iter()
        .map(|c| c.text.as_deref().unwrap_or(""))
        .collect();
    assert_eq!(texts, vec!["early", "tie", "middle", "late"]);
    assert_eq!(
        merged.custom,
        vec![
            ("k".to_string(), FieldValue::Flag(true)),
            ("j".to_string(), FieldValue::Null),
        ]
    );
}

#[test]
fn active_right_now_tree_includes_every_visible_card_and_uses_topmost_root() {
    let epic = issue("kanbus-epic");
    let mut parent = issue("kanbus-parent");
    parent.parent = Some(epic.identifier.clone());
    let mut active = issue("kanbus-active");
    active.status = ACTIVE.to_string();
    active.parent = Some(parent.identifier.clone());
    let mut discovery = issue("kanbus-discovery");
    discovery.status = "discovery".to_string();
    discovery.parent = Some(parent.identifier.clone());
    let mut discovery_child = issue("kanbus-discovery-child");
    discovery_child.status = "discovery".to_string();
    discovery_child.parent = Some(discovery.identifier.clone());
    let unrelated = issue("kanbus-unrelated");

    let (roots, selected) = active_right_now_tree(
        &[epic, parent, active, discovery, discovery_child, unrelated],
        ACTIVE,
    );

    assert_eq!(roots, vec!["kanbus-epic"]);
    assert_eq!(
        selected.into_iter().collect::<HashSet<String>>(),
        HashSet::from([
            "kanbus-epic".to_string(),
            "kanbus-parent".to_string(),
            "kanbus-active".to_string(),
            "kanbus-discovery".to_string(),
            "kanbus-discovery-child".to_string(),
        ])
    );
}

#[test]
fn active_right_now_tree_includes_descendants_that_may_be_expanded() {
    let root = issue("kanbus-root");
    let mut active = issue("kanbus-active");
    active.status = ACTIVE.to_string();
    active.parent = Some(root.identifier.clone());
    let mut discovery = issue("kanbus-discovery");
    discovery.status = "open".to_string();
    discovery.parent = Some(root.identifier.clone());

    let (roots, selected) = active_right_now_tree(&[root, active, discovery], ACTIVE);

    assert_eq!(roots, vec!["kanbus-root"]);
    assert_eq!(
        selected.into_iter().collect::<HashSet<String>>(),
        HashSet::from([
            "kanbus-root".to_string(),
            "kanbus-active".to_string(),
            "kanbus-discovery".to_string(),
        ])
    );
}

#[test]
fn active_right_now_tree_runs_every_issue_of_a_cycle_in_sorted_order() {
    let mut a = issue("kanbus-b");
    a.status = ACTIVE.to_string();
    a.parent = Some("kanbus-a".to_string());
    let mut b = issue("kanbus-a");
    b.parent = Some("kanbus-b".to_string());
    let (roots, selected) = active_right_now_tree(&[a, b], ACTIVE);
    assert_eq!(roots, vec!["kanbus-a", "kanbus-b"]);
    assert_eq!(selected.len(), 2);
}

#[test]
fn active_right_now_tree_is_empty_without_active_work() {
    let (roots, selected) = active_right_now_tree(&[issue("kanbus-x")], ACTIVE);
    assert!(roots.is_empty());
    assert!(selected.is_empty());
}

#[test]
fn active_right_now_tree_sorts_several_roots() {
    let mut z = issue("kanbus-z");
    z.status = ACTIVE.to_string();
    let mut m = issue("kanbus-m");
    m.status = ACTIVE.to_string();
    m.parent = Some("missing-parent".to_string());
    let (roots, _) = active_right_now_tree(&[z, m], ACTIVE);
    assert_eq!(roots, vec!["kanbus-m", "kanbus-z"]);
}

#[test]
fn secret_like_keys_ignore_case() {
    for key in ["API-KEY", "apikey", "my_Token", "\u{17F}ecret", "db_PassWord", "Credentials", "api_\u{212A}ey"] {
        let settings = vec![(key.to_string(), FieldValue::Null)];
        let error = build_agent_metadata(Some("cursor"), Some("model"), settings, None, measured)
            .expect_err("secret-like");
        assert_eq!(error.to_message(), "agent settings must not contain secret-like keys");
    }
    for key in ["api", "api__key", "tok", "effort"] {
        let settings = vec![(key.to_string(), FieldValue::Null)];
        let agent = build_agent_metadata(Some("cursor"), Some("model"), settings, None, measured)
            .expect("accepted")
            .expect("present");
        assert_eq!(agent.settings.len(), 1);
    }
}
