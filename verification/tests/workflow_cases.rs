use kanbus::issue_listing::{projects_with_issues, IssuesDirectory};
use kanbus::cli::resolve_beads_mode;
use kanbus::config::default_project_configuration;
use kanbus::error::KanbusError;
use kanbus::file_io::load_project_directory;
use kanbus::issue_comment::add_comment;
use kanbus::issue_listing::{filter_labeled_projects, listing_scope, LabeledProject, ListingScope};
use kanbus::issue_update::close_issue;
use kanbus::models::{IssueComment, IssueData, ProjectConfiguration};

fn issue(identifier: &str) -> IssueData {
    IssueData {
        identifier: identifier.to_string(),
        title: format!("Issue {identifier}"),
        description: String::new(),
        issue_type: "task".to_string(),
        status: "open".to_string(),
        priority: 2,
        assignee: None,
        creator: None,
        parent: None,
        labels: Vec::new(),
        dependencies: Vec::new(),
        comments: Vec::new(),
        created_at: 0,
        updated_at: 0,
        closed_at: None,
        agent: None,
        right_now_summary: None,
        right_now_updated_at: None,
        custom: Vec::new(),
    }
}

fn apply_status(mut issue: IssueData, _: String, status: String) -> Result<IssueData, KanbusError> {
    issue.status = status;
    Ok(issue)
}

#[test]
fn close_issue_moves_status_to_closed() {
    let closed = close_issue(
        Ok(issue("kanbus-a")),
        Ok(default_project_configuration()),
        Ok(vec![issue("kanbus-a")]),
        Ok(issue_files(vec![issue("kanbus-a")])),
        apply_status,
    )
    .expect("closed");
    assert_eq!(closed.status, "closed");
    assert_eq!(closed.identifier, "kanbus-a");
}

#[test]
fn close_issue_passes_on_lookup_and_transition_errors() {
    let missing = close_issue(
        Err(KanbusError::IssueOperation("not found".to_string())),
        Ok(default_project_configuration()),
        Ok(Vec::new()),
        Ok(issue_files(Vec::new())),
        apply_status,
    );
    assert_eq!(missing.unwrap_err(), KanbusError::IssueOperation("not found".to_string()));
    let refused = close_issue(
        Ok(issue("kanbus-a")),
        Ok(default_project_configuration()),
        Ok(Vec::new()),
        Ok(issue_files(Vec::new())),
        |_: IssueData, _: String, status: String| Err(KanbusError::InvalidTransition(format!("no way to {status}"))),
    );
    assert_eq!(refused.unwrap_err(), KanbusError::InvalidTransition("no way to closed".to_string()));
}

#[test]
fn add_comment_appends_with_fresh_identifier() {
    let mut data = issue("kanbus-a");
    data.comments.push(IssueComment {
        id: None,
        author: "ana".to_string(),
        text: Some("first".to_string()),
        created_at: 1,
        comment_type: "default".to_string(),
        data: Vec::new(),
        agent: None,
    });
    let updated = add_comment(Ok(data), "bo", "second", None, 42).expect("added");
    assert_eq!(updated.comments.len(), 2);
    let old = &updated.comments[0];
    assert_eq!(old.id.as_ref().map(|id| id.len()), Some(36));
    let new = &updated.comments[1];
    assert_eq!(new.author, "bo");
    assert_eq!(new.text.as_deref(), Some("second"));
    assert_eq!(new.created_at, 42);
    assert_eq!(new.comment_type, "default");
    assert_eq!(new.id.as_ref().map(|id| id.len()), Some(36));
    assert_ne!(old.id, new.id);
    let failed = add_comment(Err(KanbusError::Io("unreadable".to_string())), "bo", "x", None, 0);
    assert_eq!(failed.unwrap_err(), KanbusError::Io("unreadable".to_string()));
}

fn labeled(label: &str, dir: &str) -> LabeledProject {
    LabeledProject { label: label.to_string(), project_dir: dir.to_string() }
}

#[test]
fn project_filter_selects_named_projects() {
    let projects = vec![labeled("app", "/repo/app/project"), labeled("web", "/repo/web/project"), labeled("ops", "/repo/ops/project")];
    let filter = vec!["ops".to_string(), "app".to_string()];
    assert_eq!(
        filter_labeled_projects(&projects, &filter).expect("selected"),
        vec!["/repo/app/project".to_string(), "/repo/ops/project".to_string()]
    );
    let unknown = vec!["app".to_string(), "db".to_string(), "x".to_string()];
    assert_eq!(
        filter_labeled_projects(&projects, &unknown).unwrap_err(),
        KanbusError::IssueOperation("unknown project: db".to_string())
    );
    assert_eq!(
        filter_labeled_projects(&Vec::new(), &filter).unwrap_err(),
        KanbusError::IssueOperation("project not initialized".to_string())
    );
}

fn beads_configuration(_: &str) -> Result<ProjectConfiguration, KanbusError> {
    let mut configuration = default_project_configuration();
    configuration.beads_compatibility = true;
    Ok(configuration)
}

#[test]
fn beads_mode_from_flag_or_configuration() {
    assert_eq!(
        resolve_beads_mode(true, Err(KanbusError::Io("x".to_string())), beads_configuration),
        Ok((true, true))
    );
    assert_eq!(
        resolve_beads_mode(false, Ok("/repo/.kanbus.yml".to_string()), beads_configuration),
        Ok((true, false))
    );
    assert_eq!(
        resolve_beads_mode(
            false,
            Err(KanbusError::IssueOperation("project not initialized".to_string())),
            beads_configuration
        ),
        Ok((false, false))
    );
    assert_eq!(
        resolve_beads_mode(
            false,
            Err(KanbusError::Io("configuration path lookup failed".to_string())),
            beads_configuration
        ),
        Ok((false, false))
    );
    assert_eq!(
        resolve_beads_mode(false, Err(KanbusError::Io("denied".to_string())), beads_configuration),
        Err(KanbusError::Io("denied".to_string()))
    );
}

fn titled(identifier: &str, title: &str) -> IssueData {
    let mut data = issue(identifier);
    data.title = title.to_string();
    data
}

#[test]
fn find_duplicate_title_matches_case_insensitively() {
    let files = issue_files(vec![titled("kanbus-aaa", "Duplicate Title"), titled("kanbus-bbb", "Different")]);
    let duplicate = kanbus::issue_update::find_duplicate_title(&files, "duplicate title", "kanbus-bbb");
    assert_eq!(duplicate.as_deref(), Some("kanbus-aaa"));
}

#[test]
fn find_duplicate_title_ignores_current_identifier_and_invalid_json() {
    let mut files = issue_files(vec![titled("kanbus-aaa", "Current")]);
    files.push(("broken".to_string(), None));
    let duplicate = kanbus::issue_update::find_duplicate_title(&files, "Current", "kanbus-aaa");
    assert!(duplicate.is_none());
}

#[test]
fn resolve_beads_mode_returns_false_for_uninitialized_root() {
    let (beads_mode, forced) = resolve_beads_mode(
        false,
        Err(KanbusError::IssueOperation("project not initialized".to_string())),
        beads_configuration,
    )
    .expect("beads mode");
    assert!(!beads_mode);
    assert!(!forced);
}

#[test]
fn resolve_beads_mode_reads_configuration_flag() {
    let (beads_mode, forced) =
        resolve_beads_mode(false, Ok("/repo/.kanbus.yml".to_string()), beads_configuration).expect("beads mode");
    assert!(beads_mode);
    assert!(!forced);
}

#[test]
fn project_directory_is_the_single_one_found() {
    let none = load_project_directory(Vec::new()).unwrap_err();
    assert_eq!(none, KanbusError::IssueOperation("project not initialized".to_string()));
    let single = load_project_directory(vec!["/repo/project".to_string(), "/repo/project".to_string()]);
    assert_eq!(single, Ok("/repo/project".to_string()));
    let several = load_project_directory(vec![
        "/repo/a-b/project".to_string(),
        "/repo/a/project".to_string(),
        "/repo/a-b/project".to_string(),
    ])
    .unwrap_err();
    assert_eq!(
        several,
        KanbusError::IssueOperation(
            "multiple projects found: /repo/a/project, /repo/a-b/project. Run this command from a directory with a single project/, or remove extra entries from external_projects in .taskulus.yml."
                .to_string()
        )
    );
}

#[test]
fn removing_an_added_dependency_restores_links() {
    use_dependencies_round_trip();
}

fn use_dependencies_round_trip() {
    let mut source = issue("kanbus-a");
    source.dependencies.push(kanbus::models::DependencyLink {
        target: "kanbus-c".to_string(),
        dependency_type: "relates-to".to_string(),
    });
    let added = kanbus::dependencies::add_dependency(
        "kanbus-a",
        "kanbus-b",
        "blocked-by",
        Ok(source),
        Ok(issue("kanbus-b")),
        Ok(vec![issue("kanbus-a"), issue("kanbus-b")]),
    )
    .expect("added");
    assert_eq!(added.dependencies.len(), 2);
    let removed = kanbus::dependencies::remove_dependency("kanbus-a", "kanbus-b", "blocked-by", Ok(added))
        .expect("removed");
    assert_eq!(removed.dependencies.len(), 1);
    assert_eq!(removed.dependencies[0].target, "kanbus-c");
    assert_eq!(removed.dependencies[0].dependency_type, "relates-to");
}

#[test]
fn listing_scope_follows_flags_and_projects() {
    assert_eq!(
        listing_scope(false, true, 1).err(),
        Some(KanbusError::IssueOperation("local-only conflicts with no-local".to_string()))
    );
    assert_eq!(
        listing_scope(true, false, 0).err(),
        Some(KanbusError::IssueOperation("project not initialized".to_string()))
    );
    assert!(matches!(listing_scope(true, true, 1), Ok(ListingScope::SingleProject)));
    assert!(matches!(listing_scope(true, false, 3), Ok(ListingScope::AcrossProjects)));
}

#[test]
fn joining_an_absolute_path_replaces_the_base() {
    assert_eq!(kanbus::paths::join_path("/repo", "/tenants/a"), "/tenants/a");
    assert_eq!(kanbus::paths::join_path("/repo", "project"), "/repo/project");
    assert_eq!(kanbus::paths::join_path("/repo/", "project"), "/repo/project");
}

#[test]
fn create_title_joins_words_and_refuses_blank() {
    let words = vec!["Fix".to_string(), "the".to_string(), "bug".to_string()];
    assert_eq!(kanbus::cli::create_title(&words).expect("title"), "Fix the bug");
    let blank = vec!["  ".to_string(), "".to_string()];
    let error = kanbus::cli::create_title(&blank).expect_err("blank");
    assert_eq!(error.to_message(), "title is required");
    assert!(kanbus::cli::create_title(&Vec::new()).is_err());
}

#[test]
fn beads_mode_refuses_agent_metadata_and_local_issues() {
    let agent = kanbus::cli::check_create_storage(true, true, true).expect_err("agent");
    assert_eq!(agent.to_message(), "agent metadata requires native Kanbus issue storage");
    let local = kanbus::cli::check_create_storage(true, false, true).expect_err("local");
    assert_eq!(local.to_message(), "beads mode does not support local issues");
    assert!(kanbus::cli::check_create_storage(false, true, true).is_ok());
    assert!(kanbus::cli::check_create_storage(true, false, false).is_ok());
}

fn issue_files(issues: Vec<IssueData>) -> Vec<(String, Option<IssueData>)> {
    issues.into_iter().map(|issue| (issue.identifier.clone(), Some(issue))).collect()
}

#[test]
fn adding_a_dependency_twice_changes_nothing_more() {
    let once = kanbus::dependencies::add_dependency(
        "kanbus-a",
        "kanbus-b",
        "relates-to",
        Ok(issue("kanbus-a")),
        Ok(issue("kanbus-b")),
        Ok(Vec::new()),
    )
    .expect("added");
    let twice = kanbus::dependencies::add_dependency(
        "kanbus-a",
        "kanbus-b",
        "relates-to",
        Ok(once.clone()),
        Ok(issue("kanbus-b")),
        Ok(Vec::new()),
    )
    .expect("again");
    assert_eq!(twice, once);
    assert_eq!(twice.dependencies.len(), 1);
}

#[test]
fn project_paths_are_distinct_and_sorted() {
    let found = vec!["/r/b/project".to_string(), "/r/a/project".to_string(), "/r/b/project".to_string()];
    assert_eq!(
        kanbus::issue_listing::distinct_project_paths(found),
        vec!["/r/a/project".to_string(), "/r/b/project".to_string()]
    );
}

#[test]
fn projects_with_issues_keeps_present_ones() {
    let kept = projects_with_issues(vec![
        ("/a".to_string(), IssuesDirectory::Absent),
        ("/b".to_string(), IssuesDirectory::Present),
    ])
    .expect("projects");
    assert_eq!(kept, vec!["/b".to_string()]);
    let none = projects_with_issues(vec![("/a".to_string(), IssuesDirectory::Absent)]).expect_err("none");
    assert_eq!(none, KanbusError::IssueOperation("project not initialized".to_string()));
    let denied = projects_with_issues(vec![
        ("/a".to_string(), IssuesDirectory::PermissionDenied("first".to_string())),
        ("/b".to_string(), IssuesDirectory::Present),
        ("/c".to_string(), IssuesDirectory::PermissionDenied("second".to_string())),
    ])
    .expect_err("denied");
    assert_eq!(denied, KanbusError::Io("second".to_string()));
}
