//! Issue, comment, agent and configuration records.

use vstd::prelude::*;

verus! {

/// A JSON value held in a free-form field. Text and flags are kept as such;
/// any other JSON value (numbers, arrays, objects) is kept as its compact
/// JSON text.
#[derive(Debug, Clone, PartialEq, Eq)]
pub enum FieldValue {
    /// A JSON string.
    Text(String),
    /// A JSON boolean.
    Flag(bool),
    /// JSON null.
    Null,
    /// Any other JSON value, as compact JSON text.
    Raw(String),
}

/// A dependency from one issue to another.
#[derive(Debug, Clone, PartialEq, Eq)]
pub struct DependencyLink {
    /// Identifier of the target issue.
    pub target: String,
    /// Dependency type ("blocked-by" or "relates-to").
    pub dependency_type: String,
}

/// Provenance metadata for work done by an agent.
#[derive(Debug, Clone, PartialEq, Eq)]
pub struct AgentMetadata {
    /// Normalized platform slug.
    pub platform: String,
    /// Model name.
    pub model: String,
    /// Optional session name.
    pub name: Option<String>,
    /// Free-form settings, keys ascending (`keys_ascending`).
    pub settings: Vec<(String, FieldValue)>,
}

/// A comment on an issue.
#[derive(Debug, Clone, PartialEq, Eq)]
pub struct IssueComment {
    /// Unique comment identifier, when one was assigned.
    pub id: Option<String>,
    /// Author name.
    pub author: String,
    /// Comment text, if any.
    pub text: Option<String>,
    /// Creation time in nanoseconds since the Unix epoch.
    pub created_at: i64,
    /// Comment kind ("default" for plain comments).
    pub comment_type: String,
    /// Free-form structured data in key order.
    pub data: Vec<(String, FieldValue)>,
    /// Agent provenance for the comment, if any.
    pub agent: Option<AgentMetadata>,
}

/// An issue record.
#[derive(Debug, Clone, PartialEq, Eq)]
pub struct IssueData {
    pub identifier: String,
    pub title: String,
    pub description: String,
    pub issue_type: String,
    pub status: String,
    pub priority: i32,
    pub assignee: Option<String>,
    pub creator: Option<String>,
    pub parent: Option<String>,
    pub labels: Vec<String>,
    pub dependencies: Vec<DependencyLink>,
    pub comments: Vec<IssueComment>,
    /// Creation time in nanoseconds since the Unix epoch.
    pub created_at: i64,
    /// Last update time in nanoseconds since the Unix epoch.
    pub updated_at: i64,
    /// Close time in nanoseconds since the Unix epoch, if closed.
    pub closed_at: Option<i64>,
    pub agent: Option<AgentMetadata>,
    pub right_now_summary: Option<String>,
    pub right_now_updated_at: Option<i64>,
    /// Custom fields in key order.
    pub custom: Vec<(String, FieldValue)>,
}

/// Named priority level.
#[derive(Debug, Clone, PartialEq, Eq)]
pub struct PriorityDefinition {
    pub name: String,
    pub color: Option<String>,
}

/// Status category (board column group).
#[derive(Debug, Clone, PartialEq, Eq)]
pub struct CategoryDefinition {
    pub name: String,
    pub color: Option<String>,
}

/// Workflow status definition.
#[derive(Debug, Clone, PartialEq, Eq)]
pub struct StatusDefinition {
    pub key: String,
    pub name: String,
    pub category: String,
    pub color: Option<String>,
    pub collapsed: bool,
}

/// Transitions allowed out of one status: the status and its targets.
pub type StatusTransitions = (String, Vec<String>);

/// Labels of the transitions out of one status: the status and, for each
/// target, its label.
pub type StatusTransitionLabels = (String, Vec<(String, String)>);

/// Project configuration. Every association list is held in key order with
/// no key twice.
#[derive(Debug, Clone, PartialEq, Eq)]
pub struct ProjectConfiguration {
    pub project_directory: String,
    /// Virtual projects: label and project path.
    pub virtual_projects: Vec<(String, String)>,
    pub new_issue_project: Option<String>,
    pub ignore_paths: Vec<String>,
    pub console_port: Option<u16>,
    pub project_key: String,
    pub project_management_template: Option<String>,
    pub hierarchy: Vec<String>,
    pub types: Vec<String>,
    /// Workflows: name and, for each status, its allowed transitions.
    pub workflows: Vec<(String, Vec<StatusTransitions>)>,
    /// Transition labels: workflow name and the labels of each status.
    pub transition_labels: Vec<(String, Vec<StatusTransitionLabels>)>,
    pub initial_status: String,
    /// Priorities by value.
    pub priorities: Vec<(u8, PriorityDefinition)>,
    pub default_priority: u8,
    pub assignee: Option<String>,
    pub time_zone: Option<String>,
    pub statuses: Vec<StatusDefinition>,
    pub categories: Vec<CategoryDefinition>,
    /// Type colors: issue type and color name.
    pub type_colors: Vec<(String, String)>,
    pub beads_compatibility: bool,
}

/// Two field values hold the same value.
pub open spec fn field_value_eq(a: FieldValue, b: FieldValue) -> bool {
    match (a, b) {
        (FieldValue::Text(x), FieldValue::Text(y)) => x@ == y@,
        (FieldValue::Flag(x), FieldValue::Flag(y)) => x == y,
        (FieldValue::Null, FieldValue::Null) => true,
        (FieldValue::Raw(x), FieldValue::Raw(y)) => x@ == y@,
        _ => false,
    }
}

/// Two optional texts hold the same text.
pub open spec fn opt_text_eq(a: Option<String>, b: Option<String>) -> bool {
    match (a, b) {
        (Some(x), Some(y)) => x@ == y@,
        (None, None) => true,
        _ => false,
    }
}

/// Two agent records hold the same values.
pub open spec fn agent_eq(a: AgentMetadata, b: AgentMetadata) -> bool {
    &&& a.platform@ == b.platform@
    &&& a.model@ == b.model@
    &&& opt_text_eq(a.name, b.name)
    &&& a.settings@.len() == b.settings@.len()
    &&& forall|i: int| 0 <= i < a.settings@.len() ==> setting_eq(#[trigger] a.settings@[i], b.settings@[i])
}

/// Two settings entries have the same key and value.
pub open spec fn setting_eq(a: (String, FieldValue), b: (String, FieldValue)) -> bool {
    a.0@ == b.0@ && field_value_eq(a.1, b.1)
}

/// Two optional agent records hold the same values.
pub open spec fn opt_agent_eq(a: Option<AgentMetadata>, b: Option<AgentMetadata>) -> bool {
    match (a, b) {
        (Some(x), Some(y)) => agent_eq(x, y),
        (None, None) => true,
        _ => false,
    }
}

fn text_eq(a: &String, b: &String) -> (r: bool)
    ensures
        r == (a@ == b@),
{
    crate::text::equals(a.as_str(), b.as_str())
}

fn field_values_equal(a: &FieldValue, b: &FieldValue) -> (r: bool)
    ensures
        r == field_value_eq(*a, *b),
{
    match (a, b) {
        (FieldValue::Text(x), FieldValue::Text(y)) => text_eq(x, y),
        (FieldValue::Flag(x), FieldValue::Flag(y)) => *x == *y,
        (FieldValue::Null, FieldValue::Null) => true,
        (FieldValue::Raw(x), FieldValue::Raw(y)) => text_eq(x, y),
        _ => false,
    }
}

/// Whether two optional texts hold the same text.
pub fn opt_texts_equal(a: &Option<String>, b: &Option<String>) -> (r: bool)
    ensures
        r == opt_text_eq(*a, *b),
{
    match (a, b) {
        (Some(x), Some(y)) => text_eq(x, y),
        (None, None) => true,
        _ => false,
    }
}

/// Whether two agent records hold the same values.
pub fn agents_equal(a: &AgentMetadata, b: &AgentMetadata) -> (r: bool)
    ensures
        r == agent_eq(*a, *b),
{
    if !text_eq(&a.platform, &b.platform) || !text_eq(&a.model, &b.model) || !opt_texts_equal(&a.name, &b.name) {
        return false;
    }
    if a.settings.len() != b.settings.len() {
        return false;
    }
    let mut i: usize = 0;
    while i < a.settings.len()
        invariant
            i <= a.settings@.len(),
            a.settings@.len() == b.settings@.len(),
            forall|k: int| 0 <= k < i ==> setting_eq(#[trigger] a.settings@[k], b.settings@[k]),
        decreases a.settings@.len() - i,
    {
        let pa = &a.settings[i];
        let pb = &b.settings[i];
        let same_key = text_eq(&pa.0, &pb.0);
        let same_value = field_values_equal(&pa.1, &pb.1);
        if !same_key || !same_value {
            return false;
        }
        assert(setting_eq(a.settings@[i as int], b.settings@[i as int]));
        i += 1;
    }
    true
}

/// Whether two optional agent records hold the same values.
pub fn opt_agents_equal(a: &Option<AgentMetadata>, b: &Option<AgentMetadata>) -> (r: bool)
    ensures
        r == opt_agent_eq(*a, *b),
{
    match (a, b) {
        (Some(x), Some(y)) => agents_equal(x, y),
        (None, None) => true,
        _ => false,
    }
}

/// An optional text as a value.
pub open spec fn opt_text_view(o: Option<String>) -> Option<Seq<char>> {
    match o {
        Some(t) => Some(t@),
        None => None,
    }
}

/// The transitions of one workflow as values: each status and its targets.
pub open spec fn workflow_view(w: Seq<StatusTransitions>) -> Seq<(Seq<char>, Seq<Seq<char>>)> {
    w.map_values(|e: StatusTransitions| (e.0@, e.1.deep_view()))
}

/// Workflows as values.
pub open spec fn workflows_view(
    ws: Seq<(String, Vec<StatusTransitions>)>,
) -> Seq<(Seq<char>, Seq<(Seq<char>, Seq<Seq<char>>)>)> {
    ws.map_values(|e: (String, Vec<StatusTransitions>)| (e.0@, workflow_view(e.1@)))
}

/// The labels of the transitions out of one status, as values.
pub open spec fn label_pairs_view(l: Seq<(String, String)>) -> Seq<(Seq<char>, Seq<char>)> {
    l.map_values(|e: (String, String)| (e.0@, e.1@))
}

/// The transition labels of one workflow, as values.
pub open spec fn workflow_labels_view(w: Seq<StatusTransitionLabels>) -> Seq<(Seq<char>, Seq<(Seq<char>, Seq<char>)>)> {
    w.map_values(|e: StatusTransitionLabels| (e.0@, label_pairs_view(e.1@)))
}

/// Transition labels as values.
pub open spec fn transition_labels_view(
    ls: Seq<(String, Vec<StatusTransitionLabels>)>,
) -> Seq<(Seq<char>, Seq<(Seq<char>, Seq<(Seq<char>, Seq<char>)>)>)> {
    ls.map_values(|e: (String, Vec<StatusTransitionLabels>)| (e.0@, workflow_labels_view(e.1@)))
}

/// Priorities as values.
pub open spec fn priorities_view(p: Seq<(u8, PriorityDefinition)>) -> Seq<(u8, Seq<char>, Option<Seq<char>>)> {
    p.map_values(|e: (u8, PriorityDefinition)| (e.0, e.1.name@, opt_text_view(e.1.color)))
}

/// Statuses as values.
pub open spec fn statuses_view(s: Seq<StatusDefinition>) -> Seq<(Seq<char>, Seq<char>, Seq<char>, Option<Seq<char>>, bool)> {
    s.map_values(|d: StatusDefinition| (d.key@, d.name@, d.category@, opt_text_view(d.color), d.collapsed))
}

/// Categories as values.
pub open spec fn categories_view(c: Seq<CategoryDefinition>) -> Seq<(Seq<char>, Option<Seq<char>>)> {
    c.map_values(|d: CategoryDefinition| (d.name@, opt_text_view(d.color)))
}

/// Entries of a map kept as a list: their keys strictly ascending, so each
/// key occurs once and the entries come in key order, as a sorted map
/// gives them.
pub open spec fn keys_ascending<V>(entries: Seq<(String, V)>) -> bool {
    forall|i: int, j: int| 0 <= i < j < entries.len() ==> crate::text::str_lt(
        (#[trigger] entries[i]).0@,
        (#[trigger] entries[j]).0@,
    )
}

} // verus!
