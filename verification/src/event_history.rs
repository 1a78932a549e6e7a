//! Event history: event kinds, file names and directories.

use vstd::prelude::*;
use vstd::string::*;

use crate::beads_write::are_texts;
use crate::error::KanbusError;
use crate::ids::{is_uuid_v4_text, new_uuid_text};
use crate::issue_line::signed_text;
use crate::json_value::JsonValue;
use crate::agent_metadata::opt_str_view;
use crate::models::{opt_text_view, IssueData};
use crate::paths::{is_within, join_path, path_join, path_within};
use crate::text::{
    decimal, decimal_text, equals, join3, lemma_str_lt_irreflexive_pub, owned, push_char, sort_distinct_strings, str_less, str_lt,
};

verus! {

/// Version of the event record schema.
pub const EVENT_SCHEMA_VERSION: u32 = 1;

/// Kinds of recorded issue events.
#[derive(Debug, Clone, Copy, PartialEq, Eq)]
pub enum EventType {
    IssueCreated,
    StateTransition,
    FieldUpdated,
    CommentAdded,
    CommentUpdated,
    CommentDeleted,
    DependencyAdded,
    DependencyRemoved,
    IssueDeleted,
    IssueLocalized,
    IssuePromoted,
}

/// File name of an event: `{occurred_at}__{event_id}.json`.
pub open spec fn event_file_name(occurred_at: Seq<char>, event_id: Seq<char>) -> Seq<char> {
    occurred_at + "__"@ + event_id + ".json"@
}

/// Name of the file that holds an event.
pub fn event_filename(occurred_at: &str, event_id: &str) -> (r: String)
    ensures
        r@ == event_file_name(occurred_at@, event_id@),
{
    let mut s = join3(occurred_at, "__", event_id);
    s.append(".json");
    s
}

/// The events directory of a project directory.
pub fn events_dir_for_project(project_dir: &str) -> (r: String)
    ensures
        r@ == path_join(project_dir@, "events"@),
{
    join_path(project_dir, "events")
}

/// `path` with trailing '/' characters removed.
pub open spec fn trim_trailing_slashes(path: Seq<char>) -> Seq<char>
    decreases path.len(),
{
    if path.len() > 0 && path.last() == '/' {
        trim_trailing_slashes(path.drop_last())
    } else {
        path
    }
}

/// Position of the last '/' of `path`, or -1.
pub open spec fn last_slash(path: Seq<char>) -> int
    decreases path.len(),
{
    if path.len() == 0 {
        -1
    } else if path.last() == '/' {
        path.len() - 1
    } else {
        last_slash(path.drop_last())
    }
}

/// The parent directory of a path, as `Path::parent` gives it for paths
/// whose components are separated by single slashes: none for an empty path
/// or the root, the empty path for a single relative component.
pub open spec fn path_parent(path: Seq<char>) -> Option<Seq<char>> {
    let q = trim_trailing_slashes(path);
    if q.len() == 0 {
        None
    } else {
        let k = last_slash(q);
        if k < 0 {
            Some(seq![])
        } else if k == 0 {
            Some(seq!['/'])
        } else {
            Some(q.subrange(0, k))
        }
    }
}

proof fn lemma_last_slash(path: Seq<char>)
    ensures
        -1 <= last_slash(path) < path.len(),
        last_slash(path) >= 0 ==> path[last_slash(path)] == '/',
    decreases path.len(),
{
    if path.len() > 0 && path.last() != '/' {
        lemma_last_slash(path.drop_last());
    }
}

fn parent_path(path: &str) -> (r: Option<String>)
    ensures
        match r {
            Some(p) => path_parent(path@) == Some(p@),
            None => path_parent(path@) is None,
        },
{
    let mut n = path.unicode_len();
    assert(path@.subrange(0, n as int) =~= path@);
    while n > 0 && path.get_char(n - 1) == '/'
        invariant
            n <= path@.len(),
            trim_trailing_slashes(path@) == trim_trailing_slashes(path@.subrange(0, n as int)),
        decreases n,
    {
        assert(path@.subrange(0, n as int).drop_last() =~= path@.subrange(0, n - 1));
        n -= 1;
    }
    assert(path@.subrange(0, path@.len() as int) =~= path@);
    let ghost q = path@.subrange(0, n as int);
    assert(trim_trailing_slashes(q) == q);
    if n == 0 {
        return None;
    }
    let mut k = n;
    assert(q.subrange(0, k as int) =~= q);
    while k > 0 && path.get_char(k - 1) != '/'
        invariant
            k <= n <= path@.len(),
            q == path@.subrange(0, n as int),
            last_slash(q) == last_slash(q.subrange(0, k as int)),
        decreases k,
    {
        assert(q.subrange(0, k as int).drop_last() =~= q.subrange(0, k - 1));
        k -= 1;
    }
    assert(q.subrange(0, n as int) =~= q);
    if k == 0 {
        assert(q.subrange(0, 0) =~= Seq::<char>::empty());
        Some(String::new())
    } else if k == 1 {
        assert(q.subrange(0, 1).last() == '/');
        let s = owned("/");
        proof {
            reveal_strlit("/");
        }
        Some(s)
    } else {
        assert(q.subrange(0, k as int).last() == '/');
        Some(owned(path.substring_char(0, k - 1)))
    }
}

/// The events directory of a project's local issues, beside the project
/// directory.
pub fn events_dir_for_local(project_dir: &str) -> (r: Result<String, KanbusError>)
    ensures
        match path_parent(project_dir@) {
            Some(parent) => r matches Ok(d) && d@ == path_join(path_join(parent, "project-local"@), "events"@),
            None => r matches Err(e) && e is Io && e->Io_0@ == "project-local path unavailable"@,
        },
{
    match parent_path(project_dir) {
        Some(parent) => {
            let local = join_path(&parent, "project-local");
            Ok(join_path(&local, "events"))
        },
        None => {
            let m = owned("project-local path unavailable");
            proof {
                reveal_strlit("project-local path unavailable");
            }
            Err(KanbusError::Io(m))
        },
    }
}

/// The events directory for an issue file: the local events directory when
/// the file lies in the project's local directory `local_dir`, the
/// project's otherwise.
pub fn events_dir_for_issue_path(
    project_dir: &str,
    issue_path: &str,
    local_dir: Option<&str>,
) -> (r: Result<String, KanbusError>)
    ensures
        r matches Ok(d) && d@ == (match local_dir {
            Some(l) => if path_within(issue_path@, l@) {
                path_join(l@, "events"@)
            } else {
                path_join(project_dir@, "events"@)
            },
            None => path_join(project_dir@, "events"@),
        }),
{
    if let Some(l) = local_dir {
        if is_within(issue_path, l) {
            return Ok(join_path(l, "events"));
        }
    }
    Ok(events_dir_for_project(project_dir))
}

/// File name of an issue: `{identifier}.json`.
pub open spec fn issue_file_name(identifier: Seq<char>) -> Seq<char> {
    identifier + ".json"@
}

/// Where an issue would lie among the project's local issues.
pub fn local_issue_path(local_dir: &str, issue_id: &str) -> (r: String)
    ensures
        r@ == path_join(path_join(local_dir@, "issues"@), issue_file_name(issue_id@)),
{
    let issues = join_path(local_dir, "issues");
    let mut name = owned(issue_id);
    name.append(".json");
    join_path(&issues, &name)
}

/// The events directory for an issue: the local one when the issue lies
/// among the local issues (`local_issue_exists`, checked at
/// `local_issue_path`), the project's otherwise.
pub fn events_dir_for_issue(project_dir: &str, local_dir: Option<&str>, local_issue_exists: bool) -> (r: String)
    ensures
        r@ == (match local_dir {
            Some(l) => if local_issue_exists {
                path_join(l@, "events"@)
            } else {
                path_join(project_dir@, "events"@)
            },
            None => path_join(project_dir@, "events"@),
        }),
{
    if let Some(l) = local_dir {
        if local_issue_exists {
            return join_path(l, "events");
        }
    }
    events_dir_for_project(project_dir)
}

/// The decimal text of a signed number.
pub fn signed_decimal(p: i32) -> (r: String)
    ensures
        r@ == signed_text(p as int),
{
    if p < 0 {
        let magnitude: u64 = (-(p as i64)) as u64;
        let mut s = String::new();
        push_char(&mut s, '-');
        s.append(&decimal(magnitude));
        assert(s@ =~= seq!['-'] + decimal_text((-p) as nat));
        s
    } else {
        decimal(p as u64)
    }
}

/// A recorded issue event.
pub struct EventRecord {
    pub schema_version: u32,
    pub event_id: String,
    pub issue_id: String,
    pub event_type: EventType,
    pub occurred_at: String,
    pub actor_id: String,
    pub payload: JsonValue,
}

/// Whether the record is a new event with the given fields and a fresh
/// random identifier.
pub open spec fn is_new_event(
    e: EventRecord,
    issue_id: Seq<char>,
    event_type: EventType,
    actor_id: Seq<char>,
    payload: JsonValue,
    occurred_at: Seq<char>,
) -> bool {
    &&& e.schema_version == EVENT_SCHEMA_VERSION
    &&& is_uuid_v4_text(e.event_id@)
    &&& e.issue_id@ == issue_id
    &&& e.event_type == event_type
    &&& e.actor_id@ == actor_id
    &&& e.payload == payload
    &&& e.occurred_at@ == occurred_at
}

impl EventRecord {
    /// A new event with a random identifier.
    pub fn new(issue_id: &str, event_type: EventType, actor_id: &str, payload: JsonValue, occurred_at: String) -> (e: Self)
        ensures
            is_new_event(e, issue_id@, event_type, actor_id@, payload, occurred_at@),
    {
        EventRecord {
            schema_version: EVENT_SCHEMA_VERSION,
            event_id: new_uuid_text(),
            issue_id: owned(issue_id),
            event_type,
            occurred_at,
            actor_id: owned(actor_id),
            payload,
        }
    }
}

/// Whether `v` is an object of exactly the given entries, in order, each
/// key naming a text.
pub open spec fn text_object(v: JsonValue, keys: Seq<Seq<char>>, texts: Seq<Seq<char>>) -> bool {
    &&& v is Object
    &&& v->Object_0@.len() == keys.len()
    &&& keys.len() == texts.len()
    &&& forall|i: int| 0 <= i < keys.len() ==> (#[trigger] v->Object_0@[i]).0@ == keys[i] && (v->Object_0@[i].1 matches JsonValue::Text(t) && t@ == texts[i])
}

fn entry(key: &str, value: JsonValue) -> (r: (String, JsonValue))
    ensures
        r.0@ == key@,
        r.1 == value,
{
    (owned(key), value)
}

fn text_json(s: &str) -> (r: JsonValue)
    ensures
        r matches JsonValue::Text(t) && t@ == s@,
{
    JsonValue::Text(owned(s))
}

fn pair_object(k1: &str, v1: &str, k2: &str, v2: &str) -> (r: JsonValue)
    ensures
        text_object(r, seq![k1@, k2@], seq![v1@, v2@]),
{
    let mut entries: Vec<(String, JsonValue)> = Vec::new();
    entries.push(entry(k1, text_json(v1)));
    entries.push(entry(k2, text_json(v2)));
    let r = JsonValue::Object(entries);
    assert(r->Object_0@.len() == 2);
    r
}

/// The payload of a status change.
pub fn state_transition_payload(from_status: &str, to_status: &str) -> (r: JsonValue)
    ensures
        text_object(r, seq!["from_status"@, "to_status"@], seq![from_status@, to_status@]),
{
    pair_object("from_status", from_status, "to_status", to_status)
}

/// The payload of a new comment.
pub fn comment_payload(comment_id: &str, comment_author: &str) -> (r: JsonValue)
    ensures
        text_object(r, seq!["comment_id"@, "comment_author"@], seq![comment_id@, comment_author@]),
{
    pair_object("comment_id", comment_id, "comment_author", comment_author)
}

/// The payload of a dependency change.
pub fn dependency_payload(dependency_type: &str, target_id: &str) -> (r: JsonValue)
    ensures
        text_object(r, seq!["dependency_type"@, "target_id"@], seq![dependency_type@, target_id@]),
{
    pair_object("dependency_type", dependency_type, "target_id", target_id)
}

/// The payload of a move between the shared and the local project.
pub fn transfer_payload(from_location: &str, to_location: &str) -> (r: JsonValue)
    ensures
        text_object(r, seq!["from_location"@, "to_location"@], seq![from_location@, to_location@]),
{
    pair_object("from_location", from_location, "to_location", to_location)
}

/// The payload of an updated comment: its identifier, its author, and that
/// its text changed.
pub fn comment_updated_payload(comment_id: &str, comment_author: &str) -> (r: JsonValue)
    ensures
        r is Object,
        r->Object_0@.len() == 3,
        r->Object_0@[0].0@ == "comment_id"@,
        r->Object_0@[0].1 matches JsonValue::Text(t) && t@ == comment_id@,
        r->Object_0@[1].0@ == "comment_author"@,
        r->Object_0@[1].1 matches JsonValue::Text(t) && t@ == comment_author@,
        r->Object_0@[2].0@ == "changed_fields"@,
        r->Object_0@[2].1 matches JsonValue::Array(a) && a@.len() == 1 && (a@[0] matches JsonValue::Text(t) && t@ == "text"@),
{
    let mut changed: Vec<JsonValue> = Vec::new();
    changed.push(text_json("text"));
    let mut entries: Vec<(String, JsonValue)> = Vec::new();
    entries.push(entry("comment_id", text_json(comment_id)));
    entries.push(entry("comment_author", text_json(comment_author)));
    entries.push(entry("changed_fields", JsonValue::Array(changed)));
    JsonValue::Object(entries)
}

/// The JSON of an optional text: the text, or null.
pub open spec fn opt_text_json(v: JsonValue, o: Option<String>) -> bool {
    match o {
        Some(t) => v == JsonValue::Text(t),
        None => v == JsonValue::Null,
    }
}

fn opt_json(o: &Option<String>) -> (r: JsonValue)
    ensures
        opt_text_json(r, *o),
{
    match o {
        Some(t) => JsonValue::Text(t.clone()),
        None => JsonValue::Null,
    }
}

fn labels_json(labels: &Vec<String>) -> (r: JsonValue)
    ensures
        r matches JsonValue::Array(a) && are_texts(a@, labels.deep_view()),
{
    let mut items: Vec<JsonValue> = Vec::new();
    let mut i: usize = 0;
    while i < labels.len()
        invariant
            i <= labels@.len(),
            are_texts(items@, labels.deep_view().subrange(0, i as int)),
        decreases labels@.len() - i,
    {
        let ghost before = items@;
        items.push(JsonValue::Text(labels[i].clone()));
        proof {
            assert forall|j: int| 0 <= j < items@.len() implies (#[trigger] items@[j] matches JsonValue::Text(t) && t@
                == labels.deep_view().subrange(0, i + 1)[j]) by {
                if j < i {
                    assert(items@[j] == before[j]);
                }
            }
        }
        i += 1;
    }
    assert(labels.deep_view().subrange(0, labels@.len() as int) =~= labels.deep_view());
    JsonValue::Array(items)
}

/// The payload of a new issue: its title, description, type, status,
/// priority, assignee, parent and labels.
pub fn issue_created_payload(issue: &IssueData) -> (r: JsonValue)
    ensures
        r is Object,
        r->Object_0@.len() == 8,
        r->Object_0@[0].0@ == "title"@ && r->Object_0@[0].1 == JsonValue::Text(issue.title),
        r->Object_0@[1].0@ == "description"@ && r->Object_0@[1].1 == JsonValue::Text(issue.description),
        r->Object_0@[2].0@ == "issue_type"@ && r->Object_0@[2].1 == JsonValue::Text(issue.issue_type),
        r->Object_0@[3].0@ == "status"@ && r->Object_0@[3].1 == JsonValue::Text(issue.status),
        r->Object_0@[4].0@ == "priority"@,
        r->Object_0@[4].1 matches JsonValue::Number(n) && n@ == signed_text(issue.priority as int),
        r->Object_0@[5].0@ == "assignee"@ && opt_text_json(r->Object_0@[5].1, issue.assignee),
        r->Object_0@[6].0@ == "parent"@ && opt_text_json(r->Object_0@[6].1, issue.parent),
        r->Object_0@[7].0@ == "labels"@,
        r->Object_0@[7].1 matches JsonValue::Array(a) && are_texts(a@, issue.labels.deep_view()),
{
    let mut entries: Vec<(String, JsonValue)> = Vec::new();
    entries.push(entry("title", JsonValue::Text(issue.title.clone())));
    entries.push(entry("description", JsonValue::Text(issue.description.clone())));
    entries.push(entry("issue_type", JsonValue::Text(issue.issue_type.clone())));
    entries.push(entry("status", JsonValue::Text(issue.status.clone())));
    entries.push(entry("priority", JsonValue::Number(signed_decimal(issue.priority))));
    entries.push(entry("assignee", opt_json(&issue.assignee)));
    entries.push(entry("parent", opt_json(&issue.parent)));
    entries.push(entry("labels", labels_json(&issue.labels)));
    JsonValue::Object(entries)
}

/// The payload of a deleted issue: its title, type and status.
pub fn issue_deleted_payload(issue: &IssueData) -> (r: JsonValue)
    ensures
        r is Object,
        r->Object_0@.len() == 3,
        r->Object_0@[0].0@ == "title"@ && r->Object_0@[0].1 == JsonValue::Text(issue.title),
        r->Object_0@[1].0@ == "issue_type"@ && r->Object_0@[1].1 == JsonValue::Text(issue.issue_type),
        r->Object_0@[2].0@ == "status"@ && r->Object_0@[2].1 == JsonValue::Text(issue.status),
{
    let mut entries: Vec<(String, JsonValue)> = Vec::new();
    entries.push(entry("title", JsonValue::Text(issue.title.clone())));
    entries.push(entry("issue_type", JsonValue::Text(issue.issue_type.clone())));
    entries.push(entry("status", JsonValue::Text(issue.status.clone())));
    JsonValue::Object(entries)
}

/// Whether `v` is the JSON of the field `name` of an issue.
pub open spec fn is_field_json(name: Seq<char>, issue: IssueData, v: JsonValue) -> bool {
    if name == "title"@ {
        v == JsonValue::Text(issue.title)
    } else if name == "description"@ {
        v == JsonValue::Text(issue.description)
    } else if name == "assignee"@ {
        opt_text_json(v, issue.assignee)
    } else if name == "priority"@ {
        v matches JsonValue::Number(n) && n@ == signed_text(issue.priority as int)
    } else if name == "labels"@ {
        v matches JsonValue::Array(a) && are_texts(a@, issue.labels.deep_view())
    } else if name == "parent"@ {
        opt_text_json(v, issue.parent)
    } else {
        false
    }
}

/// Whether the field `name` differs between the two issues.
pub open spec fn field_differs(name: Seq<char>, before: IssueData, after: IssueData) -> bool {
    if name == "title"@ {
        before.title@ != after.title@
    } else if name == "description"@ {
        before.description@ != after.description@
    } else if name == "assignee"@ {
        opt_text_view(before.assignee) != opt_text_view(after.assignee)
    } else if name == "priority"@ {
        before.priority != after.priority
    } else if name == "labels"@ {
        before.labels.deep_view() != after.labels.deep_view()
    } else if name == "parent"@ {
        opt_text_view(before.parent) != opt_text_view(after.parent)
    } else {
        false
    }
}

/// The fields an update records, in order.
pub open spec fn recorded_fields() -> Seq<Seq<char>> {
    seq!["title"@, "description"@, "assignee"@, "priority"@, "labels"@, "parent"@]
}

/// The recorded fields that differ between the issues, in order.
pub open spec fn changed_fields(before: IssueData, after: IssueData) -> Seq<Seq<char>> {
    recorded_fields().filter(differs_in(before, after))
}

/// The test of a field name for a difference between the issues.
pub open spec fn differs_in(before: IssueData, after: IssueData) -> spec_fn(Seq<char>) -> bool {
    |name: Seq<char>| field_differs(name, before, after)
}

/// Whether `e` is the change entry of the field `name`: the field's name,
/// with an object of its value before ("from") and after ("to").
pub open spec fn is_change_entry(e: (String, JsonValue), name: Seq<char>, before: IssueData, after: IssueData) -> bool {
    &&& e.0@ == name
    &&& e.1 is Object
    &&& e.1->Object_0@.len() == 2
    &&& e.1->Object_0@[0].0@ == "from"@
    &&& is_field_json(name, before, e.1->Object_0@[0].1)
    &&& e.1->Object_0@[1].0@ == "to"@
    &&& is_field_json(name, after, e.1->Object_0@[1].1)
}

fn opt_texts_differ(a: &Option<String>, b: &Option<String>) -> (r: bool)
    ensures
        r == (opt_text_view(*a) != opt_text_view(*b)),
{
    match (a, b) {
        (Some(x), Some(y)) => !equals(x, y),
        (None, None) => false,
        _ => true,
    }
}

fn string_lists_differ(a: &Vec<String>, b: &Vec<String>) -> (r: bool)
    ensures
        r == (a.deep_view() != b.deep_view()),
{
    if a.len() != b.len() {
        assert(a.deep_view().len() != b.deep_view().len());
        return true;
    }
    let mut i: usize = 0;
    while i < a.len()
        invariant
            i <= a@.len(),
            a@.len() == b@.len(),
            forall|j: int| 0 <= j < i ==> a.deep_view()[j] == b.deep_view()[j],
        decreases a@.len() - i,
    {
        if !equals(&a[i], &b[i]) {
            assert(a.deep_view()[i as int] != b.deep_view()[i as int]);
            return true;
        }
        i += 1;
    }
    assert(a.deep_view() =~= b.deep_view());
    false
}

fn field_json(name: &str, issue: &IssueData) -> (r: JsonValue)
    requires
        recorded_fields().contains(name@),
    ensures
        is_field_json(name@, *issue, r),
{
    proof {
        reveal_strlit("title");
        reveal_strlit("description");
        reveal_strlit("assignee");
        reveal_strlit("priority");
        reveal_strlit("labels");
        reveal_strlit("parent");
    }
    if equals(name, "title") {
        JsonValue::Text(issue.title.clone())
    } else if equals(name, "description") {
        JsonValue::Text(issue.description.clone())
    } else if equals(name, "assignee") {
        opt_json(&issue.assignee)
    } else if equals(name, "priority") {
        JsonValue::Number(signed_decimal(issue.priority))
    } else if equals(name, "labels") {
        labels_json(&issue.labels)
    } else {
        assert(name@ == "parent"@);
        opt_json(&issue.parent)
    }
}

fn change_entry(name: &str, before: &IssueData, after: &IssueData) -> (r: (String, JsonValue))
    requires
        recorded_fields().contains(name@),
    ensures
        is_change_entry(r, name@, *before, *after),
{
    let mut pair: Vec<(String, JsonValue)> = Vec::new();
    pair.push(entry("from", field_json(name, before)));
    pair.push(entry("to", field_json(name, after)));
    (owned(name), JsonValue::Object(pair))
}

/// The payload of a field update: under "changes", an entry for each
/// recorded field that differs, in order; nothing when none differs.
pub fn field_update_payload(before: &IssueData, after: &IssueData) -> (r: Option<JsonValue>)
    ensures
        changed_fields(*before, *after).len() == 0 ==> r is None,
        changed_fields(*before, *after).len() > 0 ==> (r matches Some(v) && v is Object && v->Object_0@.len() == 1
            && v->Object_0@[0].0@ == "changes"@ && v->Object_0@[0].1 is Object && ({
                let changes = v->Object_0@[0].1->Object_0@;
                let names = changed_fields(*before, *after);
                changes.len() == names.len() && forall|i: int|
                    0 <= i < names.len() ==> is_change_entry(#[trigger] changes[i], names[i], *before, *after)
            })),
{
    proof {
        reveal_strlit("title");
        reveal_strlit("description");
        reveal_strlit("assignee");
        reveal_strlit("priority");
        reveal_strlit("labels");
        reveal_strlit("parent");
    }
    let ghost fields = recorded_fields();
    let differs = [
        !equals(&before.title, &after.title),
        !equals(&before.description, &after.description),
        opt_texts_differ(&before.assignee, &after.assignee),
        before.priority != after.priority,
        string_lists_differ(&before.labels, &after.labels),
        opt_texts_differ(&before.parent, &after.parent),
    ];
    let names = ["title", "description", "assignee", "priority", "labels", "parent"];
    proof {
        assert("title"@.len() == 5 && "description"@.len() == 11 && "assignee"@.len() == 8 && "priority"@.len() == 8
            && "labels"@.len() == 6 && "parent"@.len() == 6);
        assert("assignee"@[0] == 'a' && "priority"@[0] == 'p' && "labels"@[0] == 'l' && "parent"@[0] == 'p');
        assert(fields[0] == "title"@ && fields[1] == "description"@ && fields[2] == "assignee"@);
        assert(fields[3] == "priority"@ && fields[4] == "labels"@ && fields[5] == "parent"@);
        assert(differs@[0] == field_differs(fields[0], *before, *after));
        assert(differs@[1] == field_differs(fields[1], *before, *after));
        assert(differs@[2] == field_differs(fields[2], *before, *after));
        assert(differs@[3] == field_differs(fields[3], *before, *after));
        assert(differs@[4] == field_differs(fields[4], *before, *after));
        assert(differs@[5] == field_differs(fields[5], *before, *after));
    }
    let mut changes: Vec<(String, JsonValue)> = Vec::new();
    let mut i: usize = 0;
    proof {
        assert(fields.subrange(0, 0).filter(differs_in(*before, *after)) =~= Seq::<Seq<char>>::empty());
    }
    while i < 6
        invariant
            i <= 6,
            fields == recorded_fields(),
            forall|k: int| 0 <= k < 6 ==> (#[trigger] names@[k])@ == fields[k],
            forall|k: int| 0 <= k < 6 ==> (#[trigger] differs@[k]) == field_differs(fields[k], *before, *after),
            changes@.len() == fields.subrange(0, i as int).filter(differs_in(*before, *after)).len(),
            forall|j: int|
                0 <= j < changes@.len() ==> is_change_entry(
                    #[trigger] changes@[j],
                    fields.subrange(0, i as int).filter(differs_in(*before, *after))[j],
                    *before,
                    *after,
                ),
        decreases 6 - i,
    {
        let ghost prev = fields.subrange(0, i as int).filter(differs_in(*before, *after));
        proof {
            assert(fields.subrange(0, i + 1) =~= fields.subrange(0, i as int).push(fields[i as int]));
            fields.subrange(0, i as int).lemma_filter_push(fields[i as int], differs_in(*before, *after));
        }
        if differs[i] {
            assert(fields.contains(names[i as int]@)) by {
                assert(fields[i as int] == names@[i as int]@);
            }
            let ghost before_changes = changes@;
            changes.push(change_entry(names[i], before, after));
            proof {
                assert forall|j: int| 0 <= j < changes@.len() implies is_change_entry(
                    #[trigger] changes@[j],
                    fields.subrange(0, i + 1).filter(differs_in(*before, *after))[j],
                    *before,
                    *after,
                ) by {
                    if j < before_changes.len() {
                        assert(changes@[j] == before_changes[j]);
                    }
                }
            }
        }
        i += 1;
    }
    assert(fields.subrange(0, 6) =~= fields);
    if changes.len() == 0 {
        return None;
    }
    let mut outer: Vec<(String, JsonValue)> = Vec::new();
    outer.push(entry("changes", JsonValue::Object(changes)));
    Some(JsonValue::Object(outer))
}

/// The events an update records: a status change when the status differs,
/// and a field update when a recorded field differs, in that order.
pub fn build_update_events(before: &IssueData, after: &IssueData, actor_id: &str, occurred_at: &str) -> (r: Vec<EventRecord>)
    ensures
        r@.len() == (if before.status@ != after.status@ { 1nat } else { 0nat }) + (if changed_fields(*before, *after).len() > 0 {
            1nat
        } else {
            0nat
        }),
        before.status@ != after.status@ ==> r@[0].event_type == EventType::StateTransition && is_new_event(
            r@[0],
            after.identifier@,
            EventType::StateTransition,
            actor_id@,
            r@[0].payload,
            occurred_at@,
        ) && text_object(r@[0].payload, seq!["from_status"@, "to_status"@], seq![before.status@, after.status@]),
        changed_fields(*before, *after).len() > 0 ==> ({
            let e = r@[r@.len() - 1];
            is_new_event(e, after.identifier@, EventType::FieldUpdated, actor_id@, e.payload, occurred_at@)
                && Some(e.payload) == field_update_payload_spec(*before, *after, e.payload)
        }),
{
    let mut events: Vec<EventRecord> = Vec::new();
    if !equals(&before.status, &after.status) {
        let payload = state_transition_payload(&before.status, &after.status);
        events.push(EventRecord::new(&after.identifier, EventType::StateTransition, actor_id, payload, owned(occurred_at)));
    }
    if let Some(payload) = field_update_payload(before, after) {
        let ghost p = payload;
        events.push(EventRecord::new(&after.identifier, EventType::FieldUpdated, actor_id, payload, owned(occurred_at)));
        assert(field_update_payload_spec(*before, *after, p) == Some(p));
    }
    events
}

/// Whether `v` is the field update payload of the two issues, as an
/// option: `Some(v)` when it is, nothing otherwise.
pub open spec fn field_update_payload_spec(before: IssueData, after: IssueData, v: JsonValue) -> Option<JsonValue> {
    if v is Object && v->Object_0@.len() == 1 && v->Object_0@[0].0@ == "changes"@ && v->Object_0@[0].1 is Object && ({
        let changes = v->Object_0@[0].1->Object_0@;
        let names = changed_fields(before, after);
        changes.len() == names.len() && forall|i: int|
            0 <= i < names.len() ==> is_change_entry(#[trigger] changes[i], names[i], before, after)
    }) {
        Some(v)
    } else {
        None
    }
}

/// The event files to read for a page, newest first: the names before the
/// cursor, when one is given, in decreasing order.
pub open spec fn page_order(names: Seq<Seq<char>>, before: Option<Seq<char>>) -> Set<Seq<char>> {
    names.to_set().filter(|n: Seq<char>| match before {
        Some(c) => str_lt(n, c),
        None => true,
    })
}

/// The names of event files to read, newest first: those before the
/// cursor (when given), in decreasing order. File names in a directory
/// are all different.
pub fn event_page_order(filenames: Vec<String>, before: Option<&str>) -> (r: Vec<String>)
    requires
        filenames.deep_view().no_duplicates(),
    ensures
        r.deep_view().to_set() == page_order(filenames.deep_view(), opt_str_view(before)),
        r.deep_view().no_duplicates(),
        forall|i: int, j: int| 0 <= i < j < r@.len() ==> str_lt(#[trigger] r.deep_view()[j], #[trigger] r.deep_view()[i]),
{
    let ghost all = filenames.deep_view();
    let mut kept: Vec<String> = Vec::new();
    let mut rest = filenames;
    let n = rest.len();
    let mut i: usize = 0;
    assert(kept.deep_view() =~= Seq::<Seq<char>>::empty());
    while i < n
        invariant
            n == all.len(),
            all.no_duplicates(),
            i <= n,
            rest.deep_view() == all.subrange(i as int, n as int),
            rest@.len() == n - i,
            kept.deep_view().no_duplicates(),
            forall|x: Seq<char>| kept.deep_view().contains(x) <==> (all.subrange(0, i as int).contains(x) && match opt_str_view(before) {
                Some(c) => str_lt(x, c),
                None => true,
            }),
        decreases n - i,
    {
        let ghost upto = all.subrange(0, i + 1);
        let ghost prior = all.subrange(0, i as int);
        let ghost old_rest = rest.deep_view();
        let ghost old_vec = rest@;
        let name = rest.remove(0);
        assert(old_rest[0] == old_vec[0]@);
        assert(rest.deep_view() =~= old_rest.drop_first());
        assert(name@ == all[i as int]);
        let keep = match before {
            Some(c) => str_less(&name, c),
            None => true,
        };
        let ghost kept_before = kept.deep_view();
        proof {
            assert(upto =~= prior.push(all[i as int]));
            assert(!prior.contains(all[i as int])) by {
                if prior.contains(all[i as int]) {
                    let t = choose|t: int| 0 <= t < i && prior[t] == all[i as int];
                    assert(all[t] == all[i as int]);
                }
            }
        }
        if keep {
            kept.push(name);
            proof {
                assert(kept.deep_view() =~= kept_before.push(all[i as int]));
                assert(!kept_before.contains(all[i as int]));
                assert forall|a: int, b: int| 0 <= a < kept.deep_view().len() && 0 <= b < kept.deep_view().len() && a != b implies kept.deep_view()[a] != kept.deep_view()[b] by {
                    if a < kept_before.len() && b < kept_before.len() {
                    } else if a < kept_before.len() {
                        assert(kept_before.contains(kept_before[a]));
                    } else if b < kept_before.len() {
                        assert(kept_before.contains(kept_before[b]));
                    }
                }
                assert forall|x: Seq<char>| kept.deep_view().contains(x) <==> (upto.contains(x) && match opt_str_view(before) {
                    Some(c) => str_lt(x, c),
                    None => true,
                }) by {
                    if kept.deep_view().contains(x) {
                        let t = choose|t: int| 0 <= t < kept.deep_view().len() && kept.deep_view()[t] == x;
                        if t < kept_before.len() {
                            assert(kept_before.contains(x));
                            let u = choose|u: int| 0 <= u < i && prior[u] == x;
                            assert(upto[u] == x);
                        } else {
                            assert(upto[i as int] == x);
                        }
                    }
                    if upto.contains(x) && match opt_str_view(before) {
                        Some(c) => str_lt(x, c),
                        None => true,
                    } {
                        let u = choose|u: int| 0 <= u < i + 1 && upto[u] == x;
                        if u < i {
                            assert(prior[u] == x);
                            assert(kept_before.contains(x));
                            let t = choose|t: int| 0 <= t < kept_before.len() && kept_before[t] == x;
                            assert(kept.deep_view()[t] == x);
                        } else {
                            assert(kept.deep_view()[kept_before.len() as int] == x);
                        }
                    }
                }
            }
        } else {
            proof {
                assert forall|x: Seq<char>| kept.deep_view().contains(x) <==> (upto.contains(x) && match opt_str_view(before) {
                    Some(c) => str_lt(x, c),
                    None => true,
                }) by {
                    if kept.deep_view().contains(x) {
                        let u = choose|u: int| 0 <= u < i && prior[u] == x;
                        assert(upto[u] == x);
                    }
                    if upto.contains(x) && match opt_str_view(before) {
                        Some(c) => str_lt(x, c),
                        None => true,
                    } {
                        let u = choose|u: int| 0 <= u < i + 1 && upto[u] == x;
                        if u < i {
                            assert(prior[u] == x);
                        }
                    }
                }
            }
        }
        i += 1;
    }
    assert(all.subrange(0, n as int) =~= all);
    let ascending = sort_distinct_strings(kept);
    let ghost asc = ascending.deep_view();
    let mut descending: Vec<String> = Vec::new();
    let mut k: usize = ascending.len();
    let mut src = ascending;
    assert(descending.deep_view() =~= Seq::<Seq<char>>::empty());
    while k > 0
        invariant
            k <= asc.len(),
            src.deep_view() == asc.subrange(0, k as int),
            src@.len() == k,
            descending.deep_view().len() == asc.len() - k,
            forall|j: int| 0 <= j < descending.deep_view().len() ==> #[trigger] descending.deep_view()[j] == asc[asc.len() - 1 - j],
        decreases k,
    {
        let ghost old_src = src.deep_view();
        let ghost old_vec = src@;
        let last = src.pop().unwrap();
        assert(old_src[k - 1] == old_vec[k - 1]@);
        assert(src.deep_view() =~= old_src.drop_last());
        let ghost d_before = descending.deep_view();
        descending.push(last);
        assert(descending.deep_view() =~= d_before.push(asc[k - 1]));
        k -= 1;
    }
    proof {
        let d = descending.deep_view();
        assert forall|i: int, j: int| 0 <= i < j < d.len() implies str_lt(#[trigger] d[j], #[trigger] d[i]) by {
            assert(d[j] == asc[asc.len() - 1 - j] && d[i] == asc[asc.len() - 1 - i]);
        }
        assert(asc.no_duplicates()) by {
            assert forall|a: int, b: int| 0 <= a < asc.len() && 0 <= b < asc.len() && a != b implies asc[a] != asc[b] by {
                if a < b {
                    assert(str_lt(asc[a], asc[b]));
                    lemma_str_lt_irreflexive_pub(asc[a]);
                } else {
                    assert(str_lt(asc[b], asc[a]));
                    lemma_str_lt_irreflexive_pub(asc[b]);
                }
            }
        }
        assert forall|a: int, b: int| 0 <= a < d.len() && 0 <= b < d.len() && a != b implies d[a] != d[b] by {
            assert(d[a] == asc[asc.len() - 1 - a] && d[b] == asc[asc.len() - 1 - b]);
        }
        assert forall|x: Seq<char>| d.to_set().contains(x) <==> asc.to_set().contains(x) by {
            if d.contains(x) {
                let t = choose|t: int| 0 <= t < d.len() && d[t] == x;
                assert(asc[asc.len() - 1 - t] == x);
            }
            if asc.contains(x) {
                let t = choose|t: int| 0 <= t < asc.len() && asc[t] == x;
                assert(d[asc.len() - 1 - t] == x);
            }
        }
        assert(d.to_set() =~= asc.to_set());
        assert(asc.to_set() =~= page_order(all, opt_str_view(before))) by {
            assert forall|x: Seq<char>| asc.to_set().contains(x) <==> page_order(all, opt_str_view(before)).contains(x) by {}
        }
    }
    descending
}

/// Positions, among the first `n` records, of the events of the issue.
pub open spec fn events_of(records: Seq<(String, EventRecord)>, issue_id: Seq<char>, n: int) -> Seq<int>
    decreases n,
{
    if n <= 0 {
        seq![]
    } else {
        let r = events_of(records, issue_id, n - 1);
        if records[n - 1].1.issue_id@ == issue_id {
            r.push(n - 1)
        } else {
            r
        }
    }
}

proof fn lemma_events_of(records: Seq<(String, EventRecord)>, issue_id: Seq<char>, n: int)
    requires
        0 <= n <= records.len(),
    ensures
        events_of(records, issue_id, n).len() <= n,
        forall|k: int| 0 <= k < events_of(records, issue_id, n).len() ==> 0 <= #[trigger] events_of(records, issue_id, n)[k] < n,
    decreases n,
{
    if n > 0 {
        lemma_events_of(records, issue_id, n - 1);
    }
}

/// One page of an issue's events from records read in order (newest
/// first), each with its file name: the first `limit` events of the issue,
/// and, when the page is full, the file name of its last event as the
/// cursor for the next page.
pub fn page_issue_events(records: Vec<(String, EventRecord)>, issue_id: &str, limit: usize) -> (r: (Vec<EventRecord>, Option<String>))
    ensures
        ({
            let all = events_of(records@, issue_id@, records@.len() as int);
            let taken = if all.len() <= limit { all } else { all.subrange(0, limit as int) };
            &&& r.0@.len() == taken.len()
            &&& forall|k: int| 0 <= k < taken.len() ==> #[trigger] r.0@[k] == records@[taken[k]].1
            &&& if limit > 0 && all.len() >= limit {
                r.1 matches Some(c) && c@ == records@[taken[limit - 1]].0@
            } else {
                r.1 is None
            }
        }),
{
    let ghost all_records = records@;
    let n = records.len();
    let mut rest = records;
    let mut results: Vec<EventRecord> = Vec::new();
    let mut next_before: Option<String> = None;
    let mut i: usize = 0;
    proof {
        lemma_events_of(all_records, issue_id@, n as int);
    }
    while i < n && results.len() < limit
        invariant
            n == all_records.len(),
            i <= n,
            rest@ == all_records.subrange(i as int, n as int),
            results@.len() == events_of(all_records, issue_id@, i as int).len(),
            results@.len() <= limit,
            forall|k: int| 0 <= k < results@.len() ==> #[trigger] results@[k] == all_records[events_of(all_records, issue_id@, i as int)[k]].1,
            results@.len() > 0 ==> (next_before matches Some(c) && c@ == all_records[events_of(all_records, issue_id@, i as int)[results@.len() - 1]].0@),
            results@.len() == 0 ==> next_before is None,
        decreases n - i,
    {
        proof {
            lemma_events_of(all_records, issue_id@, i as int);
        }
        let (name, record) = rest.remove(0);
        assert(rest@ =~= all_records.subrange(i + 1, n as int));
        assert((name, record) == all_records[i as int]);
        if equals(&record.issue_id, issue_id) {
            let ghost before = results@;
            next_before = Some(name);
            results.push(record);
            proof {
                assert(events_of(all_records, issue_id@, i + 1) == events_of(all_records, issue_id@, i as int).push(i as int));
                assert forall|k: int| 0 <= k < results@.len() implies #[trigger] results@[k] == all_records[events_of(all_records, issue_id@, i + 1)[k]].1 by {
                    if k < before.len() {
                        assert(results@[k] == before[k]);
                    }
                }
            }
        }
        i += 1;
    }
    proof {
        let all = events_of(all_records, issue_id@, n as int);
        lemma_events_of(all_records, issue_id@, i as int);
        lemma_events_of_prefix(all_records, issue_id@, i as int, n as int);
        if results@.len() < limit {
            assert(i == n);
        }
    }
    let cursor = if results.len() >= limit { next_before } else { None };
    (results, cursor)
}

proof fn lemma_events_of_prefix(records: Seq<(String, EventRecord)>, issue_id: Seq<char>, i: int, n: int)
    requires
        0 <= i <= n <= records.len(),
    ensures
        events_of(records, issue_id, n).len() >= events_of(records, issue_id, i).len(),
        forall|k: int| 0 <= k < events_of(records, issue_id, i).len() ==> #[trigger] events_of(records, issue_id, n)[k] == events_of(records, issue_id, i)[k],
    decreases n - i,
{
    if n > i {
        lemma_events_of_prefix(records, issue_id, i, n - 1);
    }
}

} // verus!
