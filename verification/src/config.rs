//! Default configuration for new projects.

use vstd::prelude::*;

use crate::models::{
    categories_view, label_pairs_view, priorities_view, statuses_view, transition_labels_view, workflow_labels_view,
    workflow_view, workflows_view, CategoryDefinition,
    PriorityDefinition, ProjectConfiguration, StatusDefinition, StatusTransitionLabels, StatusTransitions,
};
use crate::text::{agree_upto, first_smaller_at, owned, str_lt};

verus! {

/// The default hierarchy of issue types, from the top level down.
pub open spec fn default_hierarchy() -> Seq<Seq<char>> {
    seq!["initiative"@, "epic"@, "task"@, "sub-task"@]
}

/// The default non-hierarchical issue types.
pub open spec fn default_types() -> Seq<Seq<char>> {
    seq!["bug"@, "story"@, "chore"@]
}

/// The default workflows: for each, the transitions allowed out of each
/// status, in key order.
pub open spec fn default_workflows() -> Seq<(Seq<char>, Seq<(Seq<char>, Seq<Seq<char>>)>)> {
    seq![("default"@, seq![("blocked"@, seq!["in_progress"@, "closed"@]), ("closed"@, seq!["open"@]), ("deferred"@, seq!["open"@, "closed"@]), ("in_progress"@, seq!["open"@, "blocked"@, "closed"@]), ("open"@, seq!["in_progress"@, "closed"@, "deferred"@])]), ("epic"@, seq![("closed"@, seq!["open"@]), ("in_progress"@, seq!["open"@, "closed"@]), ("open"@, seq!["in_progress"@, "closed"@])])]
}

/// The default labels of the workflow transitions, in key order.
pub open spec fn default_transition_labels() -> Seq<(Seq<char>, Seq<(Seq<char>, Seq<(Seq<char>, Seq<char>)>)>)> {
    seq![("default"@, seq![("blocked"@, seq![("closed"@, "Close"@), ("in_progress"@, "Unblock"@)]), ("closed"@, seq![("open"@, "Reopen"@)]), ("deferred"@, seq![("closed"@, "Close"@), ("open"@, "Resume"@)]), ("in_progress"@, seq![("blocked"@, "Block"@), ("closed"@, "Complete"@), ("open"@, "Stop progress"@)]), ("open"@, seq![("closed"@, "Close"@), ("deferred"@, "Defer"@), ("in_progress"@, "Start progress"@)])]), ("epic"@, seq![("closed"@, seq![("open"@, "Reopen"@)]), ("in_progress"@, seq![("closed"@, "Complete"@), ("open"@, "Pause"@)]), ("open"@, seq![("closed"@, "Complete"@), ("in_progress"@, "Start"@)])])]
}

/// The default priorities, by value.
pub open spec fn default_priorities() -> Seq<(u8, Seq<char>, Option<Seq<char>>)> {
    seq![(0u8, "critical"@, Some("red"@)), (1u8, "high"@, Some("bright_red"@)), (2u8, "medium"@, Some("yellow"@)), (3u8, "low"@, Some("blue"@)), (4u8, "trivial"@, Some("white"@))]
}

/// The default statuses.
pub open spec fn default_statuses() -> Seq<(Seq<char>, Seq<char>, Seq<char>, Option<Seq<char>>, bool)> {
    seq![("open"@, "Open"@, "To do"@, None, false), ("in_progress"@, "In Progress"@, "In progress"@, None, false), ("blocked"@, "Blocked"@, "In progress"@, None, true), ("closed"@, "Done"@, "Done"@, None, true), ("deferred"@, "Deferred"@, "To do"@, None, true)]
}

/// The default status categories.
pub open spec fn default_categories() -> Seq<(Seq<char>, Option<Seq<char>>)> {
    seq![("To do"@, Some("grey"@)), ("In progress"@, Some("blue"@)), ("Done"@, Some("green"@))]
}

/// The default colors of the issue types, in key order.
pub open spec fn default_type_colors() -> Seq<(Seq<char>, Seq<char>)> {
    seq![("bug"@, "red"@), ("chore"@, "green"@), ("epic"@, "magenta"@), ("event"@, "bright_blue"@), ("initiative"@, "bright_blue"@), ("story"@, "yellow"@), ("sub-task"@, "bright_cyan"@), ("task"@, "cyan"@)]
}

pub(crate) fn push_text(v: &mut Vec<String>, s: &str)
    ensures
        final(v).deep_view() == old(v).deep_view().push(s@),
{
    let ghost before = v.deep_view();
    v.push(owned(s));
    assert(v.deep_view() =~= before.push(s@));
}

pub(crate) fn default_hierarchy_list() -> (r: Vec<String>)
    ensures
        r.deep_view() == default_hierarchy(),
{
    let mut v: Vec<String> = Vec::new();
    push_text(&mut v, "initiative");
    push_text(&mut v, "epic");
    push_text(&mut v, "task");
    push_text(&mut v, "sub-task");
    assert(v.deep_view() =~= seq!["initiative"@, "epic"@, "task"@, "sub-task"@]);
    v
}

fn default_types_list() -> (r: Vec<String>)
    ensures
        r.deep_view() == default_types(),
{
    let mut v: Vec<String> = Vec::new();
    push_text(&mut v, "bug");
    push_text(&mut v, "story");
    push_text(&mut v, "chore");
    assert(v.deep_view() =~= seq!["bug"@, "story"@, "chore"@]);
    v
}

fn default_workflow_table() -> (r: Vec<(String, Vec<StatusTransitions>)>)
    ensures
        workflows_view(r@) == default_workflows(),
{
    let mut workflows: Vec<(String, Vec<StatusTransitions>)> = Vec::new();
    let mut w0: Vec<StatusTransitions> = Vec::new();
    {
        let mut targets: Vec<String> = Vec::new();
        push_text(&mut targets, "in_progress");
        push_text(&mut targets, "closed");
        assert(targets.deep_view() =~= seq!["in_progress"@, "closed"@]);
        w0.push((owned("blocked"), targets));
    }
    {
        let mut targets: Vec<String> = Vec::new();
        push_text(&mut targets, "open");
        assert(targets.deep_view() =~= seq!["open"@]);
        w0.push((owned("closed"), targets));
    }
    {
        let mut targets: Vec<String> = Vec::new();
        push_text(&mut targets, "open");
        push_text(&mut targets, "closed");
        assert(targets.deep_view() =~= seq!["open"@, "closed"@]);
        w0.push((owned("deferred"), targets));
    }
    {
        let mut targets: Vec<String> = Vec::new();
        push_text(&mut targets, "open");
        push_text(&mut targets, "blocked");
        push_text(&mut targets, "closed");
        assert(targets.deep_view() =~= seq!["open"@, "blocked"@, "closed"@]);
        w0.push((owned("in_progress"), targets));
    }
    {
        let mut targets: Vec<String> = Vec::new();
        push_text(&mut targets, "in_progress");
        push_text(&mut targets, "closed");
        push_text(&mut targets, "deferred");
        assert(targets.deep_view() =~= seq!["in_progress"@, "closed"@, "deferred"@]);
        w0.push((owned("open"), targets));
    }
    assert(workflow_view(w0@) =~= seq![("blocked"@, seq!["in_progress"@, "closed"@]), ("closed"@, seq!["open"@]), ("deferred"@, seq!["open"@, "closed"@]), ("in_progress"@, seq!["open"@, "blocked"@, "closed"@]), ("open"@, seq!["in_progress"@, "closed"@, "deferred"@])]);
    workflows.push((owned("default"), w0));
    let mut w1: Vec<StatusTransitions> = Vec::new();
    {
        let mut targets: Vec<String> = Vec::new();
        push_text(&mut targets, "open");
        assert(targets.deep_view() =~= seq!["open"@]);
        w1.push((owned("closed"), targets));
    }
    {
        let mut targets: Vec<String> = Vec::new();
        push_text(&mut targets, "open");
        push_text(&mut targets, "closed");
        assert(targets.deep_view() =~= seq!["open"@, "closed"@]);
        w1.push((owned("in_progress"), targets));
    }
    {
        let mut targets: Vec<String> = Vec::new();
        push_text(&mut targets, "in_progress");
        push_text(&mut targets, "closed");
        assert(targets.deep_view() =~= seq!["in_progress"@, "closed"@]);
        w1.push((owned("open"), targets));
    }
    assert(workflow_view(w1@) =~= seq![("closed"@, seq!["open"@]), ("in_progress"@, seq!["open"@, "closed"@]), ("open"@, seq!["in_progress"@, "closed"@])]);
    workflows.push((owned("epic"), w1));
    assert(workflows_view(workflows@) =~= default_workflows());
    workflows
}

fn default_label_table() -> (r: Vec<(String, Vec<StatusTransitionLabels>)>)
    ensures
        transition_labels_view(r@) == default_transition_labels(),
{
    let mut labels: Vec<(String, Vec<StatusTransitionLabels>)> = Vec::new();
    let mut w0: Vec<StatusTransitionLabels> = Vec::new();
    {
        let mut pairs: Vec<(String, String)> = Vec::new();
        pairs.push((owned("closed"), owned("Close")));
        pairs.push((owned("in_progress"), owned("Unblock")));
        assert(label_pairs_view(pairs@) =~= seq![("closed"@, "Close"@), ("in_progress"@, "Unblock"@)]);
        w0.push((owned("blocked"), pairs));
    }
    {
        let mut pairs: Vec<(String, String)> = Vec::new();
        pairs.push((owned("open"), owned("Reopen")));
        assert(label_pairs_view(pairs@) =~= seq![("open"@, "Reopen"@)]);
        w0.push((owned("closed"), pairs));
    }
    {
        let mut pairs: Vec<(String, String)> = Vec::new();
        pairs.push((owned("closed"), owned("Close")));
        pairs.push((owned("open"), owned("Resume")));
        assert(label_pairs_view(pairs@) =~= seq![("closed"@, "Close"@), ("open"@, "Resume"@)]);
        w0.push((owned("deferred"), pairs));
    }
    {
        let mut pairs: Vec<(String, String)> = Vec::new();
        pairs.push((owned("blocked"), owned("Block")));
        pairs.push((owned("closed"), owned("Complete")));
        pairs.push((owned("open"), owned("Stop progress")));
        assert(label_pairs_view(pairs@) =~= seq![("blocked"@, "Block"@), ("closed"@, "Complete"@), ("open"@, "Stop progress"@)]);
        w0.push((owned("in_progress"), pairs));
    }
    {
        let mut pairs: Vec<(String, String)> = Vec::new();
        pairs.push((owned("closed"), owned("Close")));
        pairs.push((owned("deferred"), owned("Defer")));
        pairs.push((owned("in_progress"), owned("Start progress")));
        assert(label_pairs_view(pairs@) =~= seq![("closed"@, "Close"@), ("deferred"@, "Defer"@), ("in_progress"@, "Start progress"@)]);
        w0.push((owned("open"), pairs));
    }
    assert(workflow_labels_view(w0@) =~= seq![("blocked"@, seq![("closed"@, "Close"@), ("in_progress"@, "Unblock"@)]), ("closed"@, seq![("open"@, "Reopen"@)]), ("deferred"@, seq![("closed"@, "Close"@), ("open"@, "Resume"@)]), ("in_progress"@, seq![("blocked"@, "Block"@), ("closed"@, "Complete"@), ("open"@, "Stop progress"@)]), ("open"@, seq![("closed"@, "Close"@), ("deferred"@, "Defer"@), ("in_progress"@, "Start progress"@)])]);
    labels.push((owned("default"), w0));
    let mut w1: Vec<StatusTransitionLabels> = Vec::new();
    {
        let mut pairs: Vec<(String, String)> = Vec::new();
        pairs.push((owned("open"), owned("Reopen")));
        assert(label_pairs_view(pairs@) =~= seq![("open"@, "Reopen"@)]);
        w1.push((owned("closed"), pairs));
    }
    {
        let mut pairs: Vec<(String, String)> = Vec::new();
        pairs.push((owned("closed"), owned("Complete")));
        pairs.push((owned("open"), owned("Pause")));
        assert(label_pairs_view(pairs@) =~= seq![("closed"@, "Complete"@), ("open"@, "Pause"@)]);
        w1.push((owned("in_progress"), pairs));
    }
    {
        let mut pairs: Vec<(String, String)> = Vec::new();
        pairs.push((owned("closed"), owned("Complete")));
        pairs.push((owned("in_progress"), owned("Start")));
        assert(label_pairs_view(pairs@) =~= seq![("closed"@, "Complete"@), ("in_progress"@, "Start"@)]);
        w1.push((owned("open"), pairs));
    }
    assert(workflow_labels_view(w1@) =~= seq![("closed"@, seq![("open"@, "Reopen"@)]), ("in_progress"@, seq![("closed"@, "Complete"@), ("open"@, "Pause"@)]), ("open"@, seq![("closed"@, "Complete"@), ("in_progress"@, "Start"@)])]);
    labels.push((owned("epic"), w1));
    assert(transition_labels_view(labels@) =~= default_transition_labels());
    labels
}

fn default_priority_table() -> (r: Vec<(u8, PriorityDefinition)>)
    ensures
        priorities_view(r@) == default_priorities(),
{
    let mut p: Vec<(u8, PriorityDefinition)> = Vec::new();
    p.push((0u8, PriorityDefinition { name: owned("critical"), color: Some(owned("red")) }));
    p.push((1u8, PriorityDefinition { name: owned("high"), color: Some(owned("bright_red")) }));
    p.push((2u8, PriorityDefinition { name: owned("medium"), color: Some(owned("yellow")) }));
    p.push((3u8, PriorityDefinition { name: owned("low"), color: Some(owned("blue")) }));
    p.push((4u8, PriorityDefinition { name: owned("trivial"), color: Some(owned("white")) }));
    assert(priorities_view(p@) =~= default_priorities());
    p
}

fn default_status_list() -> (r: Vec<StatusDefinition>)
    ensures
        statuses_view(r@) == default_statuses(),
{
    let mut s: Vec<StatusDefinition> = Vec::new();
    s.push(StatusDefinition { key: owned("open"), name: owned("Open"), category: owned("To do"), color: None, collapsed: false });
    s.push(StatusDefinition { key: owned("in_progress"), name: owned("In Progress"), category: owned("In progress"), color: None, collapsed: false });
    s.push(StatusDefinition { key: owned("blocked"), name: owned("Blocked"), category: owned("In progress"), color: None, collapsed: true });
    s.push(StatusDefinition { key: owned("closed"), name: owned("Done"), category: owned("Done"), color: None, collapsed: true });
    s.push(StatusDefinition { key: owned("deferred"), name: owned("Deferred"), category: owned("To do"), color: None, collapsed: true });
    assert(statuses_view(s@) =~= default_statuses());
    s
}

fn default_category_list() -> (r: Vec<CategoryDefinition>)
    ensures
        categories_view(r@) == default_categories(),
{
    let mut c: Vec<CategoryDefinition> = Vec::new();
    c.push(CategoryDefinition { name: owned("To do"), color: Some(owned("grey")) });
    c.push(CategoryDefinition { name: owned("In progress"), color: Some(owned("blue")) });
    c.push(CategoryDefinition { name: owned("Done"), color: Some(owned("green")) });
    assert(categories_view(c@) =~= default_categories());
    c
}

fn default_type_color_table() -> (r: Vec<(String, String)>)
    ensures
        r@.map_values(|e: (String, String)| (e.0@, e.1@)) == default_type_colors(),
{
    let mut t: Vec<(String, String)> = Vec::new();
    t.push((owned("bug"), owned("red")));
    t.push((owned("chore"), owned("green")));
    t.push((owned("epic"), owned("magenta")));
    t.push((owned("event"), owned("bright_blue")));
    t.push((owned("initiative"), owned("bright_blue")));
    t.push((owned("story"), owned("yellow")));
    t.push((owned("sub-task"), owned("bright_cyan")));
    t.push((owned("task"), owned("cyan")));
    assert(t@.map_values(|e: (String, String)| (e.0@, e.1@)) =~= default_type_colors());
    t
}

/// The configuration is the default one.
pub open spec fn is_default_configuration(c: ProjectConfiguration) -> bool {
    &&& c.project_directory@ == "project"@
    &&& c.virtual_projects@.len() == 0
    &&& c.new_issue_project is None
    &&& c.ignore_paths@.len() == 0
    &&& c.console_port is None
    &&& c.project_key@ == "kanbus"@
    &&& c.project_management_template is None
    &&& c.hierarchy.deep_view() == default_hierarchy()
    &&& c.types.deep_view() == default_types()
    &&& workflows_view(c.workflows@) == default_workflows()
    &&& transition_labels_view(c.transition_labels@) == default_transition_labels()
    &&& c.initial_status@ == "open"@
    &&& priorities_view(c.priorities@) == default_priorities()
    &&& c.default_priority == 2
    &&& c.assignee is None
    &&& c.time_zone is None
    &&& statuses_view(c.statuses@) == default_statuses()
    &&& categories_view(c.categories@) == default_categories()
    &&& c.type_colors@.map_values(|e: (String, String)| (e.0@, e.1@)) == default_type_colors()
    &&& !c.beads_compatibility
}

/// The keys of a map given as a list of entries are strictly ascending:
/// each key once, in key order.
pub open spec fn view_keys_ascending<V>(s: Seq<(Seq<char>, V)>) -> bool {
    forall|i: int, j: int| 0 <= i < j < s.len() ==> str_lt((#[trigger] s[i]).0, (#[trigger] s[j]).0)
}

/// The maps of a configuration are in key order, as sorted maps hold them:
/// the workflows and the statuses of each, the transition labels at each
/// level, the priorities by value, the type colors and the virtual projects.
pub open spec fn configuration_in_key_order(c: ProjectConfiguration) -> bool {
    let ws = workflows_view(c.workflows@);
    let ls = transition_labels_view(c.transition_labels@);
    &&& view_keys_ascending(ws)
    &&& forall|i: int| 0 <= i < ws.len() ==> view_keys_ascending(#[trigger] ws[i].1)
    &&& view_keys_ascending(ls)
    &&& forall|i: int| 0 <= i < ls.len() ==> view_keys_ascending(#[trigger] ls[i].1)
    &&& forall|i: int, j: int| 0 <= i < ls.len() && 0 <= j < ls[i].1.len() ==> view_keys_ascending(#[trigger] ls[i].1[j].1)
    &&& forall|i: int, j: int| 0 <= i < j < c.priorities@.len() ==> (#[trigger] c.priorities@[i]).0 < (#[trigger] c.priorities@[j]).0
    &&& view_keys_ascending(c.type_colors@.map_values(|e: (String, String)| (e.0@, e.1@)))
    &&& view_keys_ascending(c.virtual_projects@.map_values(|e: (String, String)| (e.0@, e.1@)))
}

proof fn lemma_lt_at(a: Seq<char>, b: Seq<char>, k: int)
    requires
        0 <= k < a.len(),
        k < b.len(),
        forall|j: int| 0 <= j < k ==> a[j] == b[j],
        (a[k] as int) < (b[k] as int),
    ensures
        str_lt(a, b),
{
    assert(agree_upto(a, b, k));
    assert(first_smaller_at(a, b, k));
}

proof fn lemma_ascending_from_adjacent<V>(s: Seq<(Seq<char>, V)>)
    requires
        forall|i: int| 0 <= i < s.len() - 1 ==> str_lt((#[trigger] s[i]).0, s[i + 1].0),
    ensures
        view_keys_ascending(s),
    decreases s.len(),
{
    if s.len() > 1 {
        let d = s.drop_last();
        assert forall|i: int| 0 <= i < d.len() - 1 implies str_lt((#[trigger] d[i]).0, d[i + 1].0) by {
            assert(d[i] == s[i] && d[i + 1] == s[i + 1]);
            assert(str_lt(s[i].0, s[i + 1].0));
        }
        lemma_ascending_from_adjacent(d);
        let n = s.len() - 1;
        assert(str_lt(s[n - 1].0, s[n].0));
        assert forall|i: int, j: int| 0 <= i < j < s.len() implies str_lt((#[trigger] s[i]).0, (#[trigger] s[j]).0) by {
            if j < n {
                assert(d[i] == s[i] && d[j] == s[j]);
            } else if i < n - 1 {
                assert(d[i] == s[i] && d[n - 1] == s[n - 1]);
                assert(str_lt(d[i].0, d[n - 1].0));
                crate::text::lemma_str_lt_transitive(s[i].0, s[n - 1].0, s[n].0);
            }
        }
    }
}

proof fn lemma_default_key_pairs()
    ensures
        str_lt("default"@, "epic"@),
        str_lt("blocked"@, "closed"@),
        str_lt("closed"@, "deferred"@),
        str_lt("deferred"@, "in_progress"@),
        str_lt("in_progress"@, "open"@),
        str_lt("closed"@, "in_progress"@),
        str_lt("closed"@, "open"@),
        str_lt("bug"@, "chore"@),
        str_lt("chore"@, "epic"@),
        str_lt("epic"@, "event"@),
        str_lt("event"@, "initiative"@),
        str_lt("initiative"@, "story"@),
        str_lt("story"@, "sub-task"@),
        str_lt("sub-task"@, "task"@),
{
    reveal_strlit("default");
    reveal_strlit("epic");
    reveal_strlit("blocked");
    reveal_strlit("closed");
    reveal_strlit("deferred");
    reveal_strlit("in_progress");
    reveal_strlit("open");
    reveal_strlit("bug");
    reveal_strlit("chore");
    reveal_strlit("event");
    reveal_strlit("initiative");
    reveal_strlit("story");
    reveal_strlit("sub-task");
    reveal_strlit("task");
    lemma_lt_at("default"@, "epic"@, 0);
    lemma_lt_at("blocked"@, "closed"@, 0);
    lemma_lt_at("closed"@, "deferred"@, 0);
    lemma_lt_at("deferred"@, "in_progress"@, 0);
    lemma_lt_at("in_progress"@, "open"@, 0);
    lemma_lt_at("closed"@, "in_progress"@, 0);
    lemma_lt_at("closed"@, "open"@, 0);
    lemma_lt_at("bug"@, "chore"@, 0);
    lemma_lt_at("chore"@, "epic"@, 0);
    lemma_lt_at("epic"@, "event"@, 1);
    lemma_lt_at("event"@, "initiative"@, 0);
    lemma_lt_at("initiative"@, "story"@, 0);
    lemma_lt_at("story"@, "sub-task"@, 1);
    lemma_lt_at("sub-task"@, "task"@, 0);
}

/// The default configuration's maps are in key order.
proof fn lemma_default_in_key_order(c: ProjectConfiguration)
    requires
        is_default_configuration(c),
    ensures
        configuration_in_key_order(c),
{
    lemma_default_key_pairs();
    let ws = default_workflows();
    let ls = default_transition_labels();
    lemma_ascending_from_adjacent(ws);
    lemma_ascending_from_adjacent(ws[0].1);
    lemma_ascending_from_adjacent(ws[1].1);
    lemma_ascending_from_adjacent(ls);
    lemma_ascending_from_adjacent(ls[0].1);
    lemma_ascending_from_adjacent(ls[1].1);
    assert forall|i: int, j: int| 0 <= i < ls.len() && 0 <= j < ls[i].1.len() implies view_keys_ascending(
        #[trigger] ls[i].1[j].1,
    ) by {
        lemma_ascending_from_adjacent(ls[i].1[j].1);
    }
    lemma_ascending_from_adjacent(default_type_colors());
    assert(c.virtual_projects@.map_values(|e: (String, String)| (e.0@, e.1@)).len() == 0);
    assert forall|i: int, j: int| 0 <= i < j < c.priorities@.len() implies (#[trigger] c.priorities@[i]).0 < (
    #[trigger] c.priorities@[j]).0 by {
        let p = default_priorities();
        assert(p[0].0 == 0 && p[1].0 == 1 && p[2].0 == 2 && p[3].0 == 3 && p[4].0 == 4);
        assert(p.len() == 5);
        assert(p[i].0 == i) by {
            if i == 0 {} else if i == 1 {} else if i == 2 {} else if i == 3 {} else {}
        }
        assert(p[j].0 == j) by {
            if j == 0 {} else if j == 1 {} else if j == 2 {} else if j == 3 {} else {}
        }
        assert(priorities_view(c.priorities@)[i].0 == c.priorities@[i].0);
        assert(priorities_view(c.priorities@)[j].0 == c.priorities@[j].0);
    }
}


/// Return the default project configuration.
pub fn default_project_configuration() -> (c: ProjectConfiguration)
    ensures
        is_default_configuration(c),
        configuration_in_key_order(c),
{
    let c = ProjectConfiguration {
        project_directory: owned("project"),
        virtual_projects: Vec::new(),
        new_issue_project: None,
        ignore_paths: Vec::new(),
        console_port: None,
        project_key: owned("kanbus"),
        project_management_template: None,
        hierarchy: default_hierarchy_list(),
        types: default_types_list(),
        workflows: default_workflow_table(),
        transition_labels: default_label_table(),
        initial_status: owned("open"),
        priorities: default_priority_table(),
        default_priority: 2,
        assignee: None,
        time_zone: None,
        statuses: default_status_list(),
        categories: default_category_list(),
        type_colors: default_type_color_table(),
        beads_compatibility: false,
    };
    proof {
        lemma_default_in_key_order(c);
    }
    c
}

} // verus!
