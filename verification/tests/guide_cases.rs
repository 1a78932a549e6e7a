use kanbus::config::default_project_configuration;
use kanbus::project_management::{
    build_command_examples, build_parent_child_rules, build_project_management_context,
    build_semantic_release_mapping, collect_statuses, select_status_example,
};

fn strings(values: &[&str]) -> Vec<String> {
    values.iter().map(|value| value.to_string()).collect()
}

#[test]
fn default_configuration_guide_values() {
    let context = build_project_management_context(&default_project_configuration());
    assert_eq!(context.project_key, "kanbus");
    assert_eq!(context.hierarchy_order, "initiative -> epic -> task -> sub-task");
    assert_eq!(
        context.parent_child_rules,
        strings(&[
            "epic can have parent initiative.",
            "task can have parent epic.",
            "sub-task can have parent task.",
            "bug, story, chore can have parent initiative, epic, task.",
        ])
    );
    assert_eq!(context.default_priority_value, 2);
    assert_eq!(context.default_priority_name, "medium");
    assert_eq!(context.priorities.len(), 5);
    assert_eq!(context.priorities[0].name, "critical");
    assert!(context.has_story);
    assert_eq!(context.gherkin_example, strings(&["Feature:", "Scenario:", "Given", "When", "Then"]));
    let categories: Vec<(String, String)> = context
        .semantic_release_mapping
        .iter()
        .map(|mapping| (mapping.issue_type.clone(), mapping.category.clone()))
        .collect();
    assert_eq!(
        categories,
        vec![
            ("bug".to_string(), "fix".to_string()),
            ("story".to_string(), "feat".to_string()),
            ("chore".to_string(), "chore".to_string()),
        ]
    );
    let workflow_names: Vec<String> = context.workflows.iter().map(|w| w.name.clone()).collect();
    assert_eq!(workflow_names, strings(&["default", "epic"]));
}

#[test]
fn default_configuration_command_examples() {
    let examples = build_command_examples(&default_project_configuration());
    assert_eq!(
        examples,
        strings(&[
            "kanbus create \"Plan the roadmap\" --type initiative",
            "kanbus create \"Release v1\" --type epic --parent <initiative-id>",
            "kanbus create \"Implement feature\" --type task --parent <epic-id>",
            "kanbus create \"Fix crash on launch\" --type bug --priority 0 --parent <epic-id>",
            "kanbus update <id> --status in_progress --assignee \"you@example.com\"",
            "kanbus update <id> --status blocked",
            "kanbus comment <id> \"Progress note\"",
            "kanbus list --status open",
            "kanbus close <id> --comment \"Summary of the change\"",
        ])
    );
}

#[test]
fn examples_without_hierarchy_or_workflows() {
    let mut configuration = default_project_configuration();
    configuration.hierarchy = Vec::new();
    configuration.types = strings(&["bug"]);
    configuration.workflows = Vec::new();
    configuration.priorities = Vec::new();
    configuration.default_priority = 3;
    let examples = build_command_examples(&configuration);
    assert_eq!(
        examples,
        strings(&[
            "kanbus create \"Fix crash on launch\" --type bug --priority 3",
            "kanbus update <id> --status open --assignee \"you@example.com\"",
            "kanbus comment <id> \"Progress note\"",
            "kanbus list --status open",
            "kanbus close <id> --comment \"Summary of the change\"",
        ])
    );
    let context = build_project_management_context(&configuration);
    assert_eq!(context.default_priority_name, "3");
    assert_eq!(context.hierarchy_order, "none");
}

#[test]
fn parent_child_rule_edge_cases() {
    assert_eq!(
        build_parent_child_rules(&Vec::new(), &Vec::new()),
        strings(&["No parent-child relationships are defined."])
    );
    assert_eq!(
        build_parent_child_rules(&strings(&["epic"]), &strings(&["bug", "chore"])),
        strings(&["bug, chore cannot have parents."])
    );
    assert_eq!(
        build_parent_child_rules(&strings(&["epic", "task"]), &Vec::new()),
        strings(&["task can have parent epic."])
    );
}

#[test]
fn status_example_falls_back() {
    let workflow = vec![
        ("closed".to_string(), strings(&[])),
        ("open".to_string(), strings(&[])),
        ("review".to_string(), strings(&["done", "open"])),
    ];
    assert_eq!(select_status_example("open", &workflow), "done");
    assert_eq!(select_status_example("review", &workflow), "done");
    assert_eq!(select_status_example("open", &Vec::new()), "open");
    assert_eq!(collect_statuses(&workflow), strings(&["closed", "done", "open", "review"]));
}

#[test]
fn release_categories_by_substring() {
    let mapping = build_semantic_release_mapping(&strings(&["HotFix", "User Story", "Feature", "Docs"]));
    let categories: Vec<String> = mapping.iter().map(|m| m.category.clone()).collect();
    assert_eq!(categories, strings(&["fix", "feat", "feat", "chore"]));
}

#[test]
fn guide_renders_template_with_configuration_values() {
    let configuration = default_project_configuration();
    let text = kanbus::project_management::project_management_text(
        "Key: {{ project_key }}; first: {{ workflows[0].name }}; story: {{ has_story }}; {{ priorities[2].name }}",
        &configuration,
    )
    .expect("rendered");
    assert_eq!(text, "Key: kanbus; first: default; story: True; medium");
    let broken = kanbus::project_management::project_management_text("{{ unclosed", &configuration);
    assert!(matches!(broken, Err(kanbus::error::KanbusError::IssueOperation(_))));
}

#[test]
fn guide_values_are_json() {
    let mut configuration = default_project_configuration();
    configuration.project_key = "a\"b\\c\n".to_string();
    let context = build_project_management_context(&configuration);
    let json = kanbus::project_management::guide_values_json(&context);
    assert!(json.starts_with("{\"project_key\":\"a\\\"b\\\\c\\u000a\",\"hierarchy_order\":"));
    assert!(json.contains("\"semantic_release_mapping\":[{\"type\":\"bug\",\"category\":\"fix\"}"));
    assert!(json.ends_with("\"gherkin_example\":[\"Feature:\",\"Scenario:\",\"Given\",\"When\",\"Then\"]}"));
}
