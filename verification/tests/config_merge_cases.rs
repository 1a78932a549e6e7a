use kanbus::config_loader::{
    apply_overrides, load_configuration_value, map_configuration_error, merge_with_defaults,
    normalize_virtual_projects, override_configuration, parse_dotenv_line, reject_legacy_fields,
};
use kanbus::json_value::{compact_json_text, field_of, text_of};
use kanbus::error::KanbusError;
use kanbus::json_value::JsonValue;

fn text(value: &str) -> JsonValue {
    JsonValue::Text(value.to_string())
}

fn entry(key: &str, value: JsonValue) -> (String, JsonValue) {
    (key.to_string(), value)
}

fn describe(value: &JsonValue) -> String {
    match value {
        JsonValue::Null => "null".to_string(),
        JsonValue::Bool(flag) => flag.to_string(),
        JsonValue::Number(number) => number.clone(),
        JsonValue::Text(text) => format!("'{text}'"),
        JsonValue::Array(items) => format!("[{}]", items.iter().map(describe).collect::<Vec<_>>().join(",")),
        JsonValue::Object(entries) => format!(
            "{{{}}}",
            entries.iter().map(|(k, v)| format!("{k}:{}", describe(v))).collect::<Vec<_>>().join(",")
        ),
    }
}

fn describe_entries(entries: &[(String, JsonValue)]) -> String {
    describe(&JsonValue::Object(entries.iter().map(|(k, v)| (k.clone(), copy(v))).collect()))
}

fn copy(value: &JsonValue) -> JsonValue {
    match value {
        JsonValue::Null => JsonValue::Null,
        JsonValue::Bool(flag) => JsonValue::Bool(*flag),
        JsonValue::Number(number) => JsonValue::Number(number.clone()),
        JsonValue::Text(text) => JsonValue::Text(text.clone()),
        JsonValue::Array(items) => JsonValue::Array(items.iter().map(copy).collect()),
        JsonValue::Object(entries) => JsonValue::Object(entries.iter().map(|(k, v)| (k.clone(), copy(v))).collect()),
    }
}

fn defaults() -> Vec<(String, JsonValue)> {
    vec![entry("project_key", text("kanbus")), entry("initial_status", text("open"))]
}

#[test]
fn configuration_entries_replace_defaults_in_place() {
    let value = JsonValue::Object(vec![entry("initial_status", text("todo")), entry("assignee", text("dana"))]);
    let merged = merge_with_defaults(defaults(), value).expect("merged");
    assert_eq!(describe_entries(&merged), "{project_key:'kanbus',initial_status:'todo',assignee:'dana'}");
    let empty = merge_with_defaults(defaults(), JsonValue::Null).expect("defaults");
    assert_eq!(describe_entries(&empty), "{project_key:'kanbus',initial_status:'open'}");
    let refused = merge_with_defaults(defaults(), text("oops")).unwrap_err();
    assert_eq!(refused, KanbusError::Configuration("configuration must be a mapping".to_string()));
}

#[test]
fn overrides_merge_virtual_projects_additively() {
    let base = vec![
        entry("project_key", text("kanbus")),
        entry("virtual_projects", JsonValue::Object(vec![entry("app", text("../app"))])),
    ];
    let overrides = vec![
        entry("virtual_projects", JsonValue::Object(vec![entry("web", text("../web")), entry("app", text("../app2"))])),
        entry("project_key", text("other")),
    ];
    let result = apply_overrides(base, overrides);
    assert_eq!(
        describe_entries(&result),
        "{project_key:'other',virtual_projects:{app:'../app2',web:'../web'}}"
    );
    let fresh = apply_overrides(
        vec![entry("project_key", text("kanbus"))],
        vec![entry("virtual_projects", JsonValue::Object(vec![entry("web", text("../web"))]))],
    );
    assert_eq!(describe_entries(&fresh), "{project_key:'kanbus',virtual_projects:{web:'../web'}}");
    let unchanged = apply_overrides(defaults(), Vec::new());
    assert_eq!(describe_entries(&unchanged), "{project_key:'kanbus',initial_status:'open'}");
}

#[test]
fn legacy_fields_and_virtual_project_lists() {
    let legacy = vec![entry("external_projects", JsonValue::Array(Vec::new()))];
    assert_eq!(
        reject_legacy_fields(&legacy).unwrap_err(),
        KanbusError::Configuration("external_projects has been replaced by virtual_projects".to_string())
    );
    assert!(reject_legacy_fields(&defaults()).is_ok());
    let mut listed = vec![entry("virtual_projects", JsonValue::Array(vec![text("x")])), entry("project_key", text("k"))];
    normalize_virtual_projects(&mut listed);
    assert_eq!(describe_entries(&listed), "{virtual_projects:{},project_key:'k'}");
}

#[test]
fn configuration_error_messages() {
    assert_eq!(
        map_configuration_error("unknown field `colour`, expected one of ..."),
        "unknown configuration fields"
    );
    assert_eq!(map_configuration_error("invalid type: string"), "invalid type: string");
}

#[test]
fn dotenv_lines() {
    assert_eq!(parse_dotenv_line("  # comment"), None);
    assert_eq!(parse_dotenv_line("   "), None);
    assert_eq!(parse_dotenv_line("NO_EQUALS"), None);
    assert_eq!(parse_dotenv_line(" = value"), None);
    assert_eq!(
        parse_dotenv_line("export  TOKEN = \"a b\" "),
        Some(("TOKEN".to_string(), "a b".to_string()))
    );
    assert_eq!(parse_dotenv_line("NAME='x=y'"), Some(("NAME".to_string(), "x=y".to_string())));
    assert_eq!(parse_dotenv_line("Q=\""), Some(("Q".to_string(), "\"".to_string())));
    assert_eq!(parse_dotenv_line("MIXED=\"a'"), Some(("MIXED".to_string(), "\"a'".to_string())));
}

#[test]
fn configuration_text_blank_is_empty_mapping() {
    let value = load_configuration_value("  \n\t").expect("blank");
    assert_eq!(format!("{value:?}"), "Object([])");
}

#[test]
fn configuration_text_reads_yaml_values() {
    let value = load_configuration_value("project_key: abc\nhierarchy: [epic, task]\ndefault_priority: 2\n").expect("yaml");
    assert_eq!(text_of(&value, "project_key"), Some("abc"));
    assert_eq!(compact_json_text(field_of(&value, "hierarchy").expect("hierarchy")), "[\"epic\",\"task\"]");
    assert_eq!(compact_json_text(field_of(&value, "default_priority").expect("priority")), "2");
}

#[test]
fn configuration_text_invalid_yaml_is_configuration_error() {
    let error = load_configuration_value("project_key: [unclosed").expect_err("invalid");
    assert!(matches!(error, KanbusError::Configuration(_)));
    assert!(!error.to_message().is_empty());
}

#[test]
fn override_text_blank_overrides_nothing() {
    assert!(override_configuration("   ").expect("blank").is_empty());
}

#[test]
fn override_text_gives_mapping_entries() {
    let entries = override_configuration("assignee: dev\n").expect("mapping");
    assert_eq!(entries.len(), 1);
    assert_eq!(entries[0].0, "assignee");
    assert_eq!(compact_json_text(&entries[0].1), "\"dev\"");
}

#[test]
fn override_text_must_be_mapping() {
    let error = override_configuration("- a\n- b\n").expect_err("sequence");
    assert_eq!(error.to_message(), "override configuration must be a mapping");
    let error = override_configuration("key: [unclosed").expect_err("invalid");
    assert_eq!(error.to_message(), "override configuration is invalid");
}
