//! The values that the project management guide (CONTRIBUTING_AGENT.md) is
//! rendered from: hierarchy rules, workflows, priorities, command examples
//! and the release category of each issue type.

use vstd::prelude::*;

use crate::error::KanbusError;
use crate::json_value::{json_text_value, json_text_value_of, serde_value_of_json, JsonValue};
use crate::issue_update::{lowercase, unicode_lower};
use crate::models::{workflow_view, workflows_view, PriorityDefinition, ProjectConfiguration, StatusTransitions};
use crate::text::{
    contains_str, contains_text, copy_strings, has_substring, decimal, decimal_text, distinct_strings, equals, join_first, joined_with, owned,
    push_char, sort_distinct_strings, strictly_sorted,
};

verus! {

/// One status of a workflow and the statuses it may move to.
pub struct WorkflowStatusContext {
    pub name: String,
    pub transitions: Vec<String>,
}

/// One workflow, its statuses in order.
pub struct WorkflowContext {
    pub name: String,
    pub statuses: Vec<WorkflowStatusContext>,
}

/// One priority level.
pub struct PriorityContext {
    pub value: u8,
    pub name: String,
}

/// The release category of one issue type.
pub struct SemanticReleaseMapping {
    pub issue_type: String,
    pub category: String,
}

/// Everything the project management guide mentions.
pub struct ProjectManagementContext {
    pub project_key: String,
    pub hierarchy_order: String,
    pub non_hierarchical_types: Vec<String>,
    pub parent_child_rules: Vec<String>,
    pub initial_status: String,
    pub workflows: Vec<WorkflowContext>,
    pub priorities: Vec<PriorityContext>,
    pub default_priority_value: u8,
    pub default_priority_name: String,
    pub command_examples: Vec<String>,
    pub semantic_release_mapping: Vec<SemanticReleaseMapping>,
    pub has_story: bool,
    pub gherkin_example: Vec<String>,
}

/// The value of the first entry with the key `key`, if any.
pub open spec fn first_value<K, V>(entries: Seq<(K, V)>, key: K) -> Option<V>
    decreases entries.len(),
{
    if entries.len() == 0 {
        None
    } else if entries[0].0 == key {
        Some(entries[0].1)
    } else {
        first_value(entries.drop_first(), key)
    }
}

proof fn lemma_first_value_at<K, V>(entries: Seq<(K, V)>, j: int, key: K)
    requires
        0 <= j < entries.len(),
        entries[j].0 == key,
        forall|i: int| 0 <= i < j ==> (#[trigger] entries[i]).0 != key,
    ensures
        first_value(entries, key) == Some(entries[j].1),
    decreases j,
{
    if j > 0 {
        assert forall|i: int| 0 <= i < j - 1 implies (#[trigger] entries.drop_first()[i]).0 != key by {
            assert(entries.drop_first()[i] == entries[i + 1]);
        }
        lemma_first_value_at(entries.drop_first(), j - 1, key);
    }
}

proof fn lemma_first_value_absent<K, V>(entries: Seq<(K, V)>, key: K)
    requires
        forall|i: int| 0 <= i < entries.len() ==> (#[trigger] entries[i]).0 != key,
    ensures
        first_value(entries, key) is None,
    decreases entries.len(),
{
    if entries.len() > 0 {
        assert forall|i: int| 0 <= i < entries.drop_first().len() implies (#[trigger] entries.drop_first()[i]).0 != key by {
            assert(entries.drop_first()[i] == entries[i + 1]);
        }
        lemma_first_value_absent(entries.drop_first(), key);
    }
}

/// The rule that `child` may have `parent` as its parent.
pub open spec fn child_rule(child: Seq<char>, parent: Seq<char>) -> Seq<char> {
    child + " can have parent "@ + parent + "."@
}

/// The parent-child rules of a hierarchy and of the types outside it.
pub open spec fn parent_child_rules(h: Seq<Seq<char>>, t: Seq<Seq<char>>) -> Seq<Seq<char>> {
    let chain = if h.len() > 1 {
        Seq::new((h.len() - 1) as nat, |i: int| child_rule(h[i + 1], h[i]))
    } else {
        seq![]
    };
    let parents = if h.len() > 1 {
        joined_with(h.take(h.len() - 1), ", "@)
    } else {
        seq![]
    };
    let typed = if t.len() == 0 {
        seq![]
    } else if parents.len() == 0 {
        seq![joined_with(t, ", "@) + " cannot have parents."@]
    } else {
        seq![joined_with(t, ", "@) + " can have parent "@ + parents + "."@]
    };
    let none = if h.len() <= 1 && t.len() == 0 {
        seq!["No parent-child relationships are defined."@]
    } else {
        seq![]
    };
    chain + typed + none
}

fn rule_text(child: &str, parent: &str) -> (r: String)
    ensures
        r@ == child_rule(child@, parent@),
{
    let mut s = owned(child);
    s.append(" can have parent ");
    s.append(parent);
    s.append(".");
    s
}

/// The parent-child rules: each level of the hierarchy under the one
/// above it, then the other types under any level but the last.
pub fn build_parent_child_rules(hierarchy: &Vec<String>, types: &Vec<String>) -> (r: Vec<String>)
    ensures
        r.deep_view() == parent_child_rules(hierarchy.deep_view(), types.deep_view()),
{
    let ghost h = hierarchy.deep_view();
    let ghost t = types.deep_view();
    let mut rules: Vec<String> = Vec::new();
    if hierarchy.len() > 1 {
        let mut i: usize = 1;
        while i < hierarchy.len()
            invariant
                h == hierarchy.deep_view(),
                1 <= i <= h.len(),
                rules.deep_view() == Seq::new((i - 1) as nat, |q: int| child_rule(h[q + 1], h[q])),
            decreases h.len() - i,
        {
            let ghost before = rules.deep_view();
            let rule = rule_text(hierarchy[i].as_str(), hierarchy[i - 1].as_str());
            let ghost rule_view = rule@;
            rules.push(rule);
            assert(rules.deep_view() =~= before.push(rule_view));
            assert(rules.deep_view() =~= Seq::new(i as nat, |q: int| child_rule(h[q + 1], h[q])));
            i += 1;
        }
    }
    let ghost chain = rules.deep_view();
    assert(chain =~= if h.len() > 1 {
        Seq::new((h.len() - 1) as nat, |i: int| child_rule(h[i + 1], h[i]))
    } else {
        seq![]
    });
    if types.len() > 0 {
        let parents = if hierarchy.len() > 1 {
            join_first(hierarchy, hierarchy.len() - 1, ", ")
        } else {
            String::new()
        };
        let mut line = join_first(types, types.len(), ", ");
        assert(t.take(t.len() as int) =~= t);
        if parents.unicode_len() == 0 {
            line.append(" cannot have parents.");
        } else {
            line.append(" can have parent ");
            line.append(parents.as_str());
            line.append(".");
        }
        rules.push(line);
    }
    if hierarchy.len() <= 1 && types.len() == 0 {
        rules.push(owned("No parent-child relationships are defined."));
    }
    assert(rules.deep_view() =~= parent_child_rules(h, t));
    rules
}

/// A workflow status context as values.
pub open spec fn status_context_view(c: WorkflowStatusContext) -> (Seq<char>, Seq<Seq<char>>) {
    (c.name@, c.transitions.deep_view())
}

/// Whether `r` describes the workflow `w`, status by status.
pub open spec fn describes_workflow(r: Seq<WorkflowStatusContext>, w: Seq<(Seq<char>, Seq<Seq<char>>)>) -> bool {
    r.len() == w.len() && forall|i: int| 0 <= i < r.len() ==> status_context_view(#[trigger] r[i]) == w[i]
}

/// Whether `r` describes the workflows `ws`, in order.
pub open spec fn describes_workflows(r: Seq<WorkflowContext>, ws: Seq<(Seq<char>, Seq<(Seq<char>, Seq<Seq<char>>)>)>) -> bool {
    r.len() == ws.len() && forall|i: int|
        0 <= i < r.len() ==> (#[trigger] r[i]).name@ == ws[i].0 && describes_workflow(r[i].statuses@, ws[i].1)
}

fn status_contexts(workflow: &Vec<StatusTransitions>) -> (r: Vec<WorkflowStatusContext>)
    ensures
        describes_workflow(r@, workflow_view(workflow@)),
{
    let mut out: Vec<WorkflowStatusContext> = Vec::new();
    let mut i: usize = 0;
    while i < workflow.len()
        invariant
            i <= workflow@.len(),
            out@.len() == i,
            forall|q: int| 0 <= q < i ==> status_context_view(#[trigger] out@[q]) == workflow_view(workflow@)[q],
        decreases workflow@.len() - i,
    {
        out.push(WorkflowStatusContext { name: workflow[i].0.clone(), transitions: copy_strings(&workflow[i].1) });
        i += 1;
    }
    out
}

/// The workflows, each with its statuses and their transitions, in order.
pub fn build_workflow_context(workflows: &Vec<(String, Vec<StatusTransitions>)>) -> (r: Vec<WorkflowContext>)
    ensures
        describes_workflows(r@, workflows_view(workflows@)),
{
    let mut out: Vec<WorkflowContext> = Vec::new();
    let mut i: usize = 0;
    while i < workflows.len()
        invariant
            i <= workflows@.len(),
            out@.len() == i,
            forall|q: int|
                0 <= q < i ==> (#[trigger] out@[q]).name@ == workflows_view(workflows@)[q].0 && describes_workflow(
                    out@[q].statuses@,
                    workflows_view(workflows@)[q].1,
                ),
        decreases workflows@.len() - i,
    {
        out.push(WorkflowContext { name: workflows[i].0.clone(), statuses: status_contexts(&workflows[i].1) });
        i += 1;
    }
    out
}

/// The priority levels, in order, each with its name.
pub fn build_priority_context(priorities: &Vec<(u8, PriorityDefinition)>) -> (r: Vec<PriorityContext>)
    ensures
        r@.len() == priorities@.len(),
        forall|i: int|
            0 <= i < r@.len() ==> (#[trigger] r@[i]).value == priorities@[i].0 && r@[i].name@ == priorities@[i].1.name@,
{
    let mut out: Vec<PriorityContext> = Vec::new();
    let mut i: usize = 0;
    while i < priorities.len()
        invariant
            i <= priorities@.len(),
            out@.len() == i,
            forall|q: int|
                0 <= q < i ==> (#[trigger] out@[q]).value == priorities@[q].0 && out@[q].name@ == priorities@[q].1.name@,
        decreases priorities@.len() - i,
    {
        out.push(PriorityContext { value: priorities[i].0, name: priorities[i].1.name.clone() });
        i += 1;
    }
    out
}

/// The first transition listed in a workflow, if any.
pub open spec fn first_transition(w: Seq<(Seq<char>, Seq<Seq<char>>)>) -> Option<Seq<char>>
    decreases w.len(),
{
    if w.len() == 0 {
        None
    } else if w[0].1.len() > 0 {
        Some(w[0].1[0])
    } else {
        first_transition(w.drop_first())
    }
}

/// The status used in examples: the first transition out of the initial
/// status, else the first transition of the workflow, else the initial
/// status itself.
pub open spec fn status_example(initial: Seq<char>, w: Seq<(Seq<char>, Seq<Seq<char>>)>) -> Seq<char> {
    let own = first_value(w, initial);
    if own is Some && own->0.len() > 0 {
        own->0[0]
    } else {
        match first_transition(w) {
            Some(t) => t,
            None => initial,
        }
    }
}

proof fn lemma_first_transition_at(w: Seq<(Seq<char>, Seq<Seq<char>>)>, j: int)
    requires
        0 <= j < w.len(),
        w[j].1.len() > 0,
        forall|i: int| 0 <= i < j ==> (#[trigger] w[i]).1.len() == 0,
    ensures
        first_transition(w) == Some(w[j].1[0]),
    decreases j,
{
    if j > 0 {
        assert forall|i: int| 0 <= i < j - 1 implies (#[trigger] w.drop_first()[i]).1.len() == 0 by {
            assert(w.drop_first()[i] == w[i + 1]);
        }
        lemma_first_transition_at(w.drop_first(), j - 1);
    }
}

proof fn lemma_first_transition_none(w: Seq<(Seq<char>, Seq<Seq<char>>)>)
    requires
        forall|i: int| 0 <= i < w.len() ==> (#[trigger] w[i]).1.len() == 0,
    ensures
        first_transition(w) is None,
    decreases w.len(),
{
    if w.len() > 0 {
        assert forall|i: int| 0 <= i < w.drop_first().len() implies (#[trigger] w.drop_first()[i]).1.len() == 0 by {
            assert(w.drop_first()[i] == w[i + 1]);
        }
        lemma_first_transition_none(w.drop_first());
    }
}

/// The place of the first status named `status` in a workflow.
fn find_status(workflow: &Vec<StatusTransitions>, status: &str) -> (r: Option<usize>)
    ensures
        match r {
            Some(j) => j < workflow@.len() && first_value(workflow_view(workflow@), status@) == Some(
                workflow_view(workflow@)[j as int].1,
            ),
            None => first_value(workflow_view(workflow@), status@) is None,
        },
{
    let ghost w = workflow_view(workflow@);
    let mut j: usize = 0;
    while j < workflow.len()
        invariant
            w == workflow_view(workflow@),
            j <= workflow@.len(),
            forall|i: int| 0 <= i < j ==> (#[trigger] w[i]).0 != status@,
        decreases workflow@.len() - j,
    {
        if equals(workflow[j].0.as_str(), status) {
            proof {
                lemma_first_value_at(w, j as int, status@);
            }
            return Some(j);
        }
        j += 1;
    }
    proof {
        lemma_first_value_absent(w, status@);
    }
    None
}

/// The status used in examples of moving an issue on.
pub fn select_status_example(initial_status: &str, workflow: &Vec<StatusTransitions>) -> (r: String)
    ensures
        r@ == status_example(initial_status@, workflow_view(workflow@)),
{
    let ghost w = workflow_view(workflow@);
    let own = find_status(workflow, initial_status);
    if let Some(j) = own {
        if workflow[j].1.len() > 0 {
            assert(w[j as int].1 == workflow@[j as int].1.deep_view());
            assert(w[j as int].1[0] == workflow@[j as int].1@[0]@);
            return workflow[j].1[0].clone();
        }
        assert(w[j as int].1.len() == 0);
    }
    assert(!(first_value(w, initial_status@) is Some && first_value(w, initial_status@)->0.len() > 0));
    let mut j: usize = 0;
    while j < workflow.len()
        invariant
            w == workflow_view(workflow@),
            j <= workflow@.len(),
            forall|i: int| 0 <= i < j ==> (#[trigger] w[i]).1.len() == 0,
            !(first_value(w, initial_status@) is Some && first_value(w, initial_status@)->0.len() > 0),
        decreases workflow@.len() - j,
    {
        if workflow[j].1.len() > 0 {
            proof {
                lemma_first_transition_at(w, j as int);
                assert(w[j as int].1[0] == workflow@[j as int].1@[0]@);
            }
            return workflow[j].1[0].clone();
        }
        j += 1;
    }
    proof {
        lemma_first_transition_none(w);
    }
    owned(initial_status)
}

/// Every status a workflow names: each status, then its transitions.
pub open spec fn workflow_names(w: Seq<(Seq<char>, Seq<Seq<char>>)>) -> Seq<Seq<char>>
    decreases w.len(),
{
    if w.len() == 0 {
        seq![]
    } else {
        workflow_names(w.drop_last()) + seq![w.last().0] + w.last().1
    }
}

/// The statuses a workflow names, in increasing order, each once.
pub fn collect_statuses(workflow: &Vec<StatusTransitions>) -> (r: Vec<String>)
    ensures
        strictly_sorted(r.deep_view()),
        r.deep_view().to_set() == workflow_names(workflow_view(workflow@)).to_set(),
{
    let ghost w = workflow_view(workflow@);
    let mut names: Vec<String> = Vec::new();
    let mut j: usize = 0;
    while j < workflow.len()
        invariant
            w == workflow_view(workflow@),
            j <= workflow@.len(),
            names.deep_view() == workflow_names(w.take(j as int)),
        decreases workflow@.len() - j,
    {
        let ghost base = names.deep_view();
        names.push(workflow[j].0.clone());
        let transitions = &workflow[j].1;
        let mut k: usize = 0;
        assert(names.deep_view() =~= base + seq![w[j as int].0] + transitions.deep_view().take(0));
        while k < transitions.len()
            invariant
                w == workflow_view(workflow@),
                j < workflow@.len(),
                *transitions == workflow@[j as int].1,
                k <= transitions@.len(),
                names.deep_view() == base + seq![w[j as int].0] + transitions.deep_view().take(k as int),
            decreases transitions@.len() - k,
        {
            let ghost before = names.deep_view();
            names.push(transitions[k].clone());
            assert(names.deep_view() =~= before.push(transitions.deep_view()[k as int]));
            assert(transitions.deep_view().take(k + 1) =~= transitions.deep_view().take(k as int).push(
                transitions.deep_view()[k as int],
            ));
            assert(names.deep_view() =~= base + seq![w[j as int].0] + transitions.deep_view().take(k + 1));
            k += 1;
        }
        assert(transitions.deep_view().take(k as int) =~= transitions.deep_view());
        assert(w.take(j + 1).drop_last() =~= w.take(j as int));
        assert(w.take(j + 1).last() == w[j as int]);
        assert(w[j as int].1 == transitions.deep_view());
        j += 1;
    }
    assert(w.take(j as int) =~= w);
    let distinct = distinct_strings(&names);
    sort_distinct_strings(distinct)
}

/// The name of the workflow used in examples: "default" when there is
/// one, else the first workflow's name, else "default".
pub open spec fn example_workflow_name(ws: Seq<(Seq<char>, Seq<(Seq<char>, Seq<Seq<char>>)>)>) -> Seq<char> {
    if first_value(ws, "default"@) is Some {
        "default"@
    } else if ws.len() > 0 {
        ws[0].0
    } else {
        "default"@
    }
}

/// The workflow used in examples, empty when there is none.
pub open spec fn example_workflow(ws: Seq<(Seq<char>, Seq<(Seq<char>, Seq<Seq<char>>)>)>) -> Seq<(Seq<char>, Seq<Seq<char>>)> {
    match first_value(ws, example_workflow_name(ws)) {
        Some(w) => w,
        None => seq![],
    }
}

/// The priority used in examples: the first level, else the default.
pub open spec fn example_priority(p: Seq<(u8, PriorityDefinition)>, default_priority: u8) -> u8 {
    if p.len() > 0 {
        p[0].0
    } else {
        default_priority
    }
}

/// The example commands that create issues: one per level of the
/// hierarchy (up to three), then one for the first other type.
pub open spec fn creation_examples(h: Seq<Seq<char>>, t: Seq<Seq<char>>, priority: u8) -> Seq<Seq<char>> {
    let top = if h.len() > 0 {
        seq!["kanbus create \"Plan the roadmap\" --type "@ + h[0]]
    } else {
        seq![]
    };
    let second = if h.len() > 1 {
        seq!["kanbus create \"Release v1\" --type "@ + h[1] + " --parent <"@ + h[0] + "-id>"@]
    } else {
        seq![]
    };
    let third = if h.len() > 2 {
        seq!["kanbus create \"Implement feature\" --type "@ + h[2] + " --parent <"@ + h[1] + "-id>"@]
    } else {
        seq![]
    };
    let typed = if t.len() > 0 {
        seq![
            "kanbus create \"Fix crash on launch\" --type "@ + t[0] + " --priority "@ + decimal_text(priority as nat) + if h.len()
                > 1 {
                " --parent <"@ + h[1] + "-id>"@
            } else {
                seq![]
            },
        ]
    } else {
        seq![]
    };
    top + second + third + typed
}

/// The example commands that move an issue along the example workflow,
/// comment on it, list and close issues.
pub open spec fn workflow_examples(w: Seq<(Seq<char>, Seq<Seq<char>>)>, initial: Seq<char>) -> Seq<Seq<char>> {
    let se = status_example(initial, w);
    let blocked = if workflow_names(w).contains("blocked"@) && se != "blocked"@ {
        seq!["kanbus update <id> --status blocked"@]
    } else {
        seq![]
    };
    seq!["kanbus update <id> --status "@ + se + " --assignee \"you@example.com\""@] + blocked + seq![
        "kanbus comment <id> \"Progress note\""@,
        "kanbus list --status "@ + initial,
        "kanbus close <id> --comment \"Summary of the change\""@,
    ]
}

/// The command examples for a hierarchy, types, example priority, example
/// workflow and initial status.
pub open spec fn command_examples(
    h: Seq<Seq<char>>,
    t: Seq<Seq<char>>,
    priority: u8,
    w: Seq<(Seq<char>, Seq<Seq<char>>)>,
    initial: Seq<char>,
) -> Seq<Seq<char>> {
    creation_examples(h, t, priority) + workflow_examples(w, initial)
}

/// The place of the first workflow named `name`.
fn find_workflow(workflows: &Vec<(String, Vec<StatusTransitions>)>, name: &str) -> (r: Option<usize>)
    ensures
        match r {
            Some(j) => j < workflows@.len() && first_value(workflows_view(workflows@), name@) == Some(
                workflows_view(workflows@)[j as int].1,
            ),
            None => first_value(workflows_view(workflows@), name@) is None,
        },
{
    let ghost ws = workflows_view(workflows@);
    let mut j: usize = 0;
    while j < workflows.len()
        invariant
            ws == workflows_view(workflows@),
            j <= workflows@.len(),
            forall|i: int| 0 <= i < j ==> (#[trigger] ws[i]).0 != name@,
        decreases workflows@.len() - j,
    {
        if equals(workflows[j].0.as_str(), name) {
            proof {
                lemma_first_value_at(ws, j as int, name@);
            }
            return Some(j);
        }
        j += 1;
    }
    proof {
        lemma_first_value_absent(ws, name@);
    }
    None
}

fn parent_fragment(parent: &str) -> (r: String)
    ensures
        r@ == " --parent <"@ + parent@ + "-id>"@,
{
    let mut s = owned(" --parent <");
    s.append(parent);
    s.append("-id>");
    s
}

/// Example commands for the configured hierarchy, types, priorities and
/// workflow.
pub fn build_command_examples(configuration: &ProjectConfiguration) -> (r: Vec<String>)
    ensures
        r.deep_view() == command_examples(
            configuration.hierarchy.deep_view(),
            configuration.types.deep_view(),
            example_priority(configuration.priorities@, configuration.default_priority),
            example_workflow(workflows_view(configuration.workflows@)),
            configuration.initial_status@,
        ),
{
    let hierarchy = &configuration.hierarchy;
    let types = &configuration.types;
    let ghost h = hierarchy.deep_view();
    let ghost t = types.deep_view();
    let ghost ws = workflows_view(configuration.workflows@);
    let priority_example = if configuration.priorities.len() > 0 {
        configuration.priorities[0].0
    } else {
        configuration.default_priority
    };
    let workflow_name = if find_workflow(&configuration.workflows, "default").is_some() {
        owned("default")
    } else if configuration.workflows.len() > 0 {
        configuration.workflows[0].0.clone()
    } else {
        owned("default")
    };
    assert(workflow_name@ == example_workflow_name(ws));
    let empty: Vec<StatusTransitions> = Vec::new();
    let found = find_workflow(&configuration.workflows, workflow_name.as_str());
    let workflow = match found {
        Some(j) => &configuration.workflows[j].1,
        None => &empty,
    };
    assert(workflow_view(workflow@) == example_workflow(ws)) by {
        if found is None {
            assert(workflow_view(workflow@) =~= Seq::<(Seq<char>, Seq<Seq<char>>)>::empty());
        }
    }
    let mut lines = creation_lines(hierarchy, types, priority_example);
    let mut rest = workflow_lines(workflow, configuration.initial_status.as_str());
    lines.append(&mut rest);
    assert(lines.deep_view() =~= creation_examples(h, t, priority_example) + workflow_examples(
        workflow_view(workflow@),
        configuration.initial_status@,
    ));
    lines
}

fn creation_lines(hierarchy: &Vec<String>, types: &Vec<String>, priority_example: u8) -> (r: Vec<String>)
    ensures
        r.deep_view() == creation_examples(hierarchy.deep_view(), types.deep_view(), priority_example),
{
    let ghost h = hierarchy.deep_view();
    let ghost t = types.deep_view();
    let mut lines: Vec<String> = Vec::new();
    if hierarchy.len() > 0 {
        let mut line = owned("kanbus create \"Plan the roadmap\" --type ");
        line.append(hierarchy[0].as_str());
        lines.push(line);
    }
    let ghost top = if h.len() > 0 {
        seq!["kanbus create \"Plan the roadmap\" --type "@ + h[0]]
    } else {
        seq![]
    };
    assert(lines.deep_view() =~= top);
    if hierarchy.len() > 1 {
        let ghost before = lines.deep_view();
        let mut line = owned("kanbus create \"Release v1\" --type ");
        line.append(hierarchy[1].as_str());
        line.append(parent_fragment(hierarchy[0].as_str()).as_str());
        let ghost v = line@;
        assert(v =~= "kanbus create \"Release v1\" --type "@ + h[1] + " --parent <"@ + h[0] + "-id>"@);
        lines.push(line);
        assert(lines.deep_view() =~= before.push(v));
    }
    let ghost second = if h.len() > 1 {
        seq!["kanbus create \"Release v1\" --type "@ + h[1] + " --parent <"@ + h[0] + "-id>"@]
    } else {
        seq![]
    };
    assert(lines.deep_view() =~= top + second);
    if hierarchy.len() > 2 {
        let ghost before = lines.deep_view();
        let mut line = owned("kanbus create \"Implement feature\" --type ");
        line.append(hierarchy[2].as_str());
        line.append(parent_fragment(hierarchy[1].as_str()).as_str());
        let ghost v = line@;
        assert(v =~= "kanbus create \"Implement feature\" --type "@ + h[2] + " --parent <"@ + h[1] + "-id>"@);
        lines.push(line);
        assert(lines.deep_view() =~= before.push(v));
    }
    let ghost third = if h.len() > 2 {
        seq!["kanbus create \"Implement feature\" --type "@ + h[2] + " --parent <"@ + h[1] + "-id>"@]
    } else {
        seq![]
    };
    assert(lines.deep_view() =~= top + second + third);
    if types.len() > 0 {
        let ghost before = lines.deep_view();
        let mut line = owned("kanbus create \"Fix crash on launch\" --type ");
        line.append(types[0].as_str());
        line.append(" --priority ");
        line.append(decimal(priority_example as u64).as_str());
        let ghost stem = line@;
        if hierarchy.len() > 1 {
            line.append(parent_fragment(hierarchy[1].as_str()).as_str());
        }
        let ghost v = line@;
        assert(v =~= stem + if h.len() > 1 {
            " --parent <"@ + h[1] + "-id>"@
        } else {
            seq![]
        });
        lines.push(line);
        assert(lines.deep_view() =~= before.push(v));
    }
    lines
}

fn workflow_lines(workflow: &Vec<StatusTransitions>, initial_status: &str) -> (r: Vec<String>)
    ensures
        r.deep_view() == workflow_examples(workflow_view(workflow@), initial_status@),
{
    let status_example = select_status_example(initial_status, workflow);
    let statuses = collect_statuses(workflow);
    let mut lines: Vec<String> = Vec::new();
    let mut update = owned("kanbus update <id> --status ");
    update.append(status_example.as_str());
    update.append(" --assignee \"you@example.com\"");
    lines.push(update);
    let ghost before_blocked = lines.deep_view();
    if contains_str(&statuses, "blocked") && !equals(status_example.as_str(), "blocked") {
        let b = owned("kanbus update <id> --status blocked");
        let ghost bv = b@;
        lines.push(b);
        assert(lines.deep_view() =~= before_blocked.push(bv));
    }
    let ghost before_tail = lines.deep_view();
    let comment = owned("kanbus comment <id> \"Progress note\"");
    let ghost cv = comment@;
    lines.push(comment);
    let mut list = owned("kanbus list --status ");
    list.append(initial_status);
    let ghost lv = list@;
    lines.push(list);
    let close = owned("kanbus close <id> --comment \"Summary of the change\"");
    let ghost closev = close@;
    lines.push(close);
    assert(lines.deep_view() =~= before_tail + seq![cv, lv, closev]);
    assert(statuses.deep_view().contains("blocked"@) == workflow_names(workflow_view(workflow@)).contains("blocked"@)) by {
        assert(statuses.deep_view().to_set().contains("blocked"@) == statuses.deep_view().contains("blocked"@));
        assert(workflow_names(workflow_view(workflow@)).to_set().contains("blocked"@) == workflow_names(
            workflow_view(workflow@),
        ).contains("blocked"@));
    }
    assert(lines.deep_view() =~= workflow_examples(workflow_view(workflow@), initial_status@));
    lines
}

/// The release category of an issue type: "fix" for bugs and fixes,
/// "feat" for stories and features, else "chore", by its lowercase name.
pub open spec fn release_category(issue_type: Seq<char>) -> Seq<char> {
    let lowered = unicode_lower(issue_type);
    if has_substring(lowered, "bug"@) || has_substring(lowered, "fix"@) {
        "fix"@
    } else if has_substring(lowered, "story"@) || has_substring(lowered, "feature"@) {
        "feat"@
    } else {
        "chore"@
    }
}

/// The release category of each issue type, in order.
pub fn build_semantic_release_mapping(types: &Vec<String>) -> (r: Vec<SemanticReleaseMapping>)
    ensures
        r@.len() == types@.len(),
        forall|i: int|
            0 <= i < r@.len() ==> (#[trigger] r@[i]).issue_type@ == types@[i]@ && r@[i].category@ == release_category(
                types@[i]@,
            ),
{
    let mut mapping: Vec<SemanticReleaseMapping> = Vec::new();
    let mut i: usize = 0;
    while i < types.len()
        invariant
            i <= types@.len(),
            mapping@.len() == i,
            forall|q: int|
                0 <= q < i ==> (#[trigger] mapping@[q]).issue_type@ == types@[q]@ && mapping@[q].category@
                    == release_category(types@[q]@),
        decreases types@.len() - i,
    {
        let lowered = lowercase(types[i].as_str());
        let category = if contains_text(lowered.as_str(), "bug") || contains_text(lowered.as_str(), "fix") {
            owned("fix")
        } else if contains_text(lowered.as_str(), "story") || contains_text(lowered.as_str(), "feature") {
            owned("feat")
        } else {
            owned("chore")
        };
        mapping.push(SemanticReleaseMapping { issue_type: types[i].clone(), category });
        i += 1;
    }
    mapping
}

/// Whether some type is named "story", in any case.
pub open spec fn has_story_type(t: Seq<Seq<char>>) -> bool {
    exists|i: int| 0 <= i < t.len() && unicode_lower(#[trigger] t[i]) == "story"@
}

fn any_story(types: &Vec<String>) -> (r: bool)
    ensures
        r == has_story_type(types.deep_view()),
{
    let mut i: usize = 0;
    while i < types.len()
        invariant
            i <= types@.len(),
            forall|q: int| 0 <= q < i ==> unicode_lower(#[trigger] types.deep_view()[q]) != "story"@,
        decreases types@.len() - i,
    {
        if equals(lowercase(types[i].as_str()).as_str(), "story") {
            assert(unicode_lower(types.deep_view()[i as int]) == "story"@);
            return true;
        }
        i += 1;
    }
    false
}

/// The name of the default priority: its level's name, else its number.
pub open spec fn default_priority_name(p: Seq<(u8, PriorityDefinition)>, default_priority: u8) -> Seq<char> {
    match first_value(p, default_priority) {
        Some(d) => d.name@,
        None => decimal_text(default_priority as nat),
    }
}

fn priority_name(priorities: &Vec<(u8, PriorityDefinition)>, value: u8) -> (r: String)
    ensures
        r@ == default_priority_name(priorities@, value),
{
    let mut j: usize = 0;
    while j < priorities.len()
        invariant
            j <= priorities@.len(),
            forall|i: int| 0 <= i < j ==> (#[trigger] priorities@[i]).0 != value,
        decreases priorities@.len() - j,
    {
        if priorities[j].0 == value {
            proof {
                lemma_first_value_at(priorities@, j as int, value);
            }
            return priorities[j].1.name.clone();
        }
        j += 1;
    }
    proof {
        lemma_first_value_absent(priorities@, value);
    }
    decimal(value as u64)
}

/// The hierarchy in order, "none" when it is empty.
pub open spec fn hierarchy_order(h: Seq<Seq<char>>) -> Seq<char> {
    if h.len() == 0 {
        "none"@
    } else {
        joined_with(h, " -> "@)
    }
}

/// The headings of a Gherkin example.
pub open spec fn gherkin_example() -> Seq<Seq<char>> {
    seq!["Feature:"@, "Scenario:"@, "Given"@, "When"@, "Then"@]
}

/// Everything the project management guide mentions, from the
/// configuration.
pub fn build_project_management_context(configuration: &ProjectConfiguration) -> (r: ProjectManagementContext)
    ensures
        r.project_key@ == configuration.project_key@,
        r.hierarchy_order@ == hierarchy_order(configuration.hierarchy.deep_view()),
        r.non_hierarchical_types.deep_view() == configuration.types.deep_view(),
        r.parent_child_rules.deep_view() == parent_child_rules(
            configuration.hierarchy.deep_view(),
            configuration.types.deep_view(),
        ),
        r.initial_status@ == configuration.initial_status@,
        describes_workflows(r.workflows@, workflows_view(configuration.workflows@)),
        r.priorities@.len() == configuration.priorities@.len(),
        forall|i: int|
            0 <= i < r.priorities@.len() ==> (#[trigger] r.priorities@[i]).value == configuration.priorities@[i].0
                && r.priorities@[i].name@ == configuration.priorities@[i].1.name@,
        r.default_priority_value == configuration.default_priority,
        r.default_priority_name@ == default_priority_name(configuration.priorities@, configuration.default_priority),
        r.command_examples.deep_view() == command_examples(
            configuration.hierarchy.deep_view(),
            configuration.types.deep_view(),
            example_priority(configuration.priorities@, configuration.default_priority),
            example_workflow(workflows_view(configuration.workflows@)),
            configuration.initial_status@,
        ),
        r.semantic_release_mapping@.len() == configuration.types@.len(),
        forall|i: int|
            0 <= i < r.semantic_release_mapping@.len() ==> (#[trigger] r.semantic_release_mapping@[i]).issue_type@
                == configuration.types@[i]@ && r.semantic_release_mapping@[i].category@ == release_category(
                configuration.types@[i]@,
            ),
        r.has_story == has_story_type(configuration.types.deep_view()),
        r.gherkin_example.deep_view() == gherkin_example(),
{
    let hierarchy = &configuration.hierarchy;
    let hierarchy_text = if hierarchy.len() == 0 {
        owned("none")
    } else {
        join_first(hierarchy, hierarchy.len(), " -> ")
    };
    assert(hierarchy.deep_view().take(hierarchy@.len() as int) =~= hierarchy.deep_view());
    let mut gherkin: Vec<String> = Vec::new();
    gherkin.push(owned("Feature:"));
    gherkin.push(owned("Scenario:"));
    gherkin.push(owned("Given"));
    gherkin.push(owned("When"));
    gherkin.push(owned("Then"));
    assert(gherkin.deep_view() =~= gherkin_example());
    ProjectManagementContext {
        project_key: configuration.project_key.clone(),
        hierarchy_order: hierarchy_text,
        non_hierarchical_types: copy_strings(&configuration.types),
        parent_child_rules: build_parent_child_rules(hierarchy, &configuration.types),
        initial_status: configuration.initial_status.clone(),
        workflows: build_workflow_context(&configuration.workflows),
        priorities: build_priority_context(&configuration.priorities),
        default_priority_value: configuration.default_priority,
        default_priority_name: priority_name(&configuration.priorities, configuration.default_priority),
        command_examples: build_command_examples(configuration),
        semantic_release_mapping: build_semantic_release_mapping(&configuration.types),
        has_story: any_story(&configuration.types),
        gherkin_example: gherkin,
    }
}

/// The hexadecimal digit of a number below sixteen.
pub open spec fn hex_digit(n: int) -> char {
    seq!['0', '1', '2', '3', '4', '5', '6', '7', '8', '9', 'a', 'b', 'c', 'd', 'e', 'f'][n]
}

/// A character as it stands inside a JSON string.
pub open spec fn json_char(c: char) -> Seq<char> {
    if c == '"' {
        seq!['\\', '"']
    } else if c == '\\' {
        seq!['\\', '\\']
    } else if (c as u32) < 0x20 {
        seq!['\\', 'u', '0', '0', hex_digit((c as u32) as int / 16), hex_digit((c as u32) as int % 16)]
    } else {
        seq![c]
    }
}

/// The characters of a text as they stand inside a JSON string.
pub open spec fn json_escaped(s: Seq<char>) -> Seq<char>
    decreases s.len(),
{
    if s.len() == 0 {
        seq![]
    } else {
        json_escaped(s.drop_last()) + json_char(s.last())
    }
}

/// A text as a JSON string.
pub open spec fn json_string(s: Seq<char>) -> Seq<char> {
    seq!['"'] + json_escaped(s) + seq!['"']
}

/// JSON texts as a JSON array.
pub open spec fn json_array(items: Seq<Seq<char>>) -> Seq<char> {
    seq!['['] + joined_with(items, seq![',']) + seq![']']
}

/// Texts as a JSON array of strings.
pub open spec fn json_strings(items: Seq<Seq<char>>) -> Seq<char> {
    json_array(items.map_values(|x: Seq<char>| json_string(x)))
}

/// A workflow status (name and transitions) as a JSON object.
pub open spec fn status_json(s: (Seq<char>, Seq<Seq<char>>)) -> Seq<char> {
    "{\"name\":"@ + json_string(s.0) + ",\"transitions\":"@ + json_strings(s.1) + "}"@
}

/// A workflow (name and statuses) as a JSON object.
pub open spec fn workflow_json(w: (Seq<char>, Seq<(Seq<char>, Seq<Seq<char>>)>)) -> Seq<char> {
    "{\"name\":"@ + json_string(w.0) + ",\"statuses\":"@ + json_array(
        w.1.map_values(|s: (Seq<char>, Seq<Seq<char>>)| status_json(s)),
    ) + "}"@
}

/// A priority level (value and name) as a JSON object.
pub open spec fn priority_json(p: (u8, Seq<char>)) -> Seq<char> {
    "{\"value\":"@ + decimal_text(p.0 as nat) + ",\"name\":"@ + json_string(p.1) + "}"@
}

/// A release category (issue type and category) as a JSON object.
pub open spec fn release_json(m: (Seq<char>, Seq<char>)) -> Seq<char> {
    "{\"type\":"@ + json_string(m.0) + ",\"category\":"@ + json_string(m.1) + "}"@
}

/// A flag as JSON.
pub open spec fn json_bool(b: bool) -> Seq<char> {
    if b {
        "true"@
    } else {
        "false"@
    }
}

/// The guide's values as one JSON object, its fields named as the
/// template names them.
pub open spec fn guide_json_of(
    project_key: Seq<char>,
    order: Seq<char>,
    types: Seq<Seq<char>>,
    rules: Seq<Seq<char>>,
    initial_status: Seq<char>,
    workflows: Seq<(Seq<char>, Seq<(Seq<char>, Seq<Seq<char>>)>)>,
    priorities: Seq<(u8, Seq<char>)>,
    default_value: u8,
    default_name: Seq<char>,
    examples: Seq<Seq<char>>,
    releases: Seq<(Seq<char>, Seq<char>)>,
    has_story: bool,
    gherkin: Seq<Seq<char>>,
) -> Seq<char> {
    "{\"project_key\":"@ + json_string(project_key) + ",\"hierarchy_order\":"@ + json_string(order)
        + ",\"non_hierarchical_types\":"@ + json_strings(types) + ",\"parent_child_rules\":"@ + json_strings(rules)
        + ",\"initial_status\":"@ + json_string(initial_status) + ",\"workflows\":"@ + json_array(
        workflows.map_values(|w: (Seq<char>, Seq<(Seq<char>, Seq<Seq<char>>)>)| workflow_json(w)),
    ) + ",\"priorities\":"@ + json_array(priorities.map_values(|p: (u8, Seq<char>)| priority_json(p)))
        + ",\"default_priority_value\":"@ + decimal_text(default_value as nat) + ",\"default_priority_name\":"@
        + json_string(default_name) + ",\"command_examples\":"@ + json_strings(examples)
        + ",\"semantic_release_mapping\":"@ + json_array(
        releases.map_values(|m: (Seq<char>, Seq<char>)| release_json(m)),
    ) + ",\"has_story\":"@ + json_bool(has_story) + ",\"gherkin_example\":"@ + json_strings(gherkin) + "}"@
}

/// A workflow context as values.
pub open spec fn workflow_context_view(w: WorkflowContext) -> (Seq<char>, Seq<(Seq<char>, Seq<Seq<char>>)>) {
    (w.name@, w.statuses@.map_values(|s: WorkflowStatusContext| status_context_view(s)))
}

/// The guide's values as JSON.
pub open spec fn guide_json(c: ProjectManagementContext) -> Seq<char> {
    guide_json_of(
        c.project_key@,
        c.hierarchy_order@,
        c.non_hierarchical_types.deep_view(),
        c.parent_child_rules.deep_view(),
        c.initial_status@,
        c.workflows@.map_values(|w: WorkflowContext| workflow_context_view(w)),
        c.priorities@.map_values(|p: PriorityContext| (p.value, p.name@)),
        c.default_priority_value,
        c.default_priority_name@,
        c.command_examples.deep_view(),
        c.semantic_release_mapping@.map_values(|m: SemanticReleaseMapping| (m.issue_type@, m.category@)),
        c.has_story,
        c.gherkin_example.deep_view(),
    )
}

/// The guide's values for a configuration, as JSON.
pub open spec fn configuration_guide_json(c: ProjectConfiguration) -> Seq<char> {
    let h = c.hierarchy.deep_view();
    let t = c.types.deep_view();
    guide_json_of(
        c.project_key@,
        hierarchy_order(h),
        t,
        parent_child_rules(h, t),
        c.initial_status@,
        workflows_view(c.workflows@),
        c.priorities@.map_values(|p: (u8, PriorityDefinition)| (p.0, p.1.name@)),
        c.default_priority,
        default_priority_name(c.priorities@, c.default_priority),
        command_examples(
            h,
            t,
            example_priority(c.priorities@, c.default_priority),
            example_workflow(workflows_view(c.workflows@)),
            c.initial_status@,
        ),
        t.map_values(|x: Seq<char>| (x, release_category(x))),
        has_story_type(t),
        gherkin_example(),
    )
}

fn json_string_of(s: &str) -> (r: String)
    ensures
        r@ == json_string(s@),
{
    let hex: Vec<char> = vec!['0', '1', '2', '3', '4', '5', '6', '7', '8', '9', 'a', 'b', 'c', 'd', 'e', 'f'];
    assert(hex@ =~= seq!['0', '1', '2', '3', '4', '5', '6', '7', '8', '9', 'a', 'b', 'c', 'd', 'e', 'f']);
    let mut out = String::new();
    push_char(&mut out, '"');
    let n = s.unicode_len();
    let mut i: usize = 0;
    while i < n
        invariant
            n == s@.len(),
            i <= n,
            hex@ == seq!['0', '1', '2', '3', '4', '5', '6', '7', '8', '9', 'a', 'b', 'c', 'd', 'e', 'f'],
            out@ == seq!['"'] + json_escaped(s@.take(i as int)),
        decreases n - i,
    {
        let c = s.get_char(i);
        let ghost before = out@;
        if c == '"' {
            push_char(&mut out, '\\');
            push_char(&mut out, '"');
        } else if c == '\\' {
            push_char(&mut out, '\\');
            push_char(&mut out, '\\');
        } else if (c as u32) < 0x20 {
            let code = c as u32;
            push_char(&mut out, '\\');
            push_char(&mut out, 'u');
            push_char(&mut out, '0');
            push_char(&mut out, '0');
            push_char(&mut out, hex[(code / 16) as usize]);
            push_char(&mut out, hex[(code % 16) as usize]);
        } else {
            push_char(&mut out, c);
        }
        proof {
            assert(out@ =~= before + json_char(c));
            assert(s@.take(i + 1).drop_last() =~= s@.take(i as int));
            assert(s@.take(i + 1).last() == c);
        }
        i += 1;
    }
    assert(s@.take(n as int) =~= s@);
    push_char(&mut out, '"');
    out
}

fn json_array_of(items: &Vec<String>) -> (r: String)
    ensures
        r@ == json_array(items.deep_view()),
{
    let mut out = String::new();
    push_char(&mut out, '[');
    let inner = join_first(items, items.len(), ",");
    proof {
        reveal_strlit(",");
        assert(","@ =~= seq![',']);
        assert(items.deep_view().take(items@.len() as int) =~= items.deep_view());
    }
    out.append(inner.as_str());
    push_char(&mut out, ']');
    out
}

fn json_strings_of(v: &Vec<String>) -> (r: String)
    ensures
        r@ == json_strings(v.deep_view()),
{
    let mut items: Vec<String> = Vec::new();
    let mut i: usize = 0;
    while i < v.len()
        invariant
            i <= v@.len(),
            items.deep_view() == v.deep_view().map_values(|x: Seq<char>| json_string(x)).take(i as int),
        decreases v@.len() - i,
    {
        let ghost before = items.deep_view();
        let item = json_string_of(v[i].as_str());
        let ghost iv = item@;
        items.push(item);
        assert(items.deep_view() =~= before.push(iv));
        assert(v.deep_view().map_values(|x: Seq<char>| json_string(x)).take(i + 1) =~= before.push(iv));
        i += 1;
    }
    assert(v.deep_view().map_values(|x: Seq<char>| json_string(x)).take(i as int) =~= v.deep_view().map_values(
        |x: Seq<char>| json_string(x),
    ));
    json_array_of(&items)
}

fn status_json_of(c: &WorkflowStatusContext) -> (r: String)
    ensures
        r@ == status_json(status_context_view(*c)),
{
    let mut out = owned("{\"name\":");
    out.append(json_string_of(c.name.as_str()).as_str());
    out.append(",\"transitions\":");
    out.append(json_strings_of(&c.transitions).as_str());
    out.append("}");
    out
}

fn workflow_json_of(w: &WorkflowContext) -> (r: String)
    ensures
        r@ == workflow_json(workflow_context_view(*w)),
{
    let mut items: Vec<String> = Vec::new();
    let mut i: usize = 0;
    while i < w.statuses.len()
        invariant
            i <= w.statuses@.len(),
            items.deep_view() == w.statuses@.map_values(|c: WorkflowStatusContext| status_json(status_context_view(c))).take(i as int),
        decreases w.statuses@.len() - i,
    {
        let ghost before = items.deep_view();
        let item = status_json_of(&w.statuses[i]);
        let ghost iv = item@;
        items.push(item);
        assert(items.deep_view() =~= before.push(iv));
        assert(w.statuses@.map_values(|c: WorkflowStatusContext| status_json(status_context_view(c))).take(i + 1) =~= before.push(iv));
        i += 1;
    }
    assert(w.statuses@.map_values(|c: WorkflowStatusContext| status_json(status_context_view(c))).take(i as int)
        =~= w.statuses@.map_values(|c: WorkflowStatusContext| status_json(status_context_view(c))));
    assert(w.statuses@.map_values(|c: WorkflowStatusContext| status_json(status_context_view(c)))
        =~= workflow_context_view(*w).1.map_values(|s: (Seq<char>, Seq<Seq<char>>)| status_json(s)));
    let mut out = owned("{\"name\":");
    out.append(json_string_of(w.name.as_str()).as_str());
    out.append(",\"statuses\":");
    out.append(json_array_of(&items).as_str());
    out.append("}");
    out
}

fn workflows_json_of(ws: &Vec<WorkflowContext>) -> (r: String)
    ensures
        r@ == json_array(ws@.map_values(|w: WorkflowContext| workflow_json(workflow_context_view(w)))),
{
    let mut items: Vec<String> = Vec::new();
    let mut i: usize = 0;
    while i < ws.len()
        invariant
            i <= ws@.len(),
            items.deep_view() == ws@.map_values(|w: WorkflowContext| workflow_json(workflow_context_view(w))).take(i as int),
        decreases ws@.len() - i,
    {
        let ghost before = items.deep_view();
        let item = workflow_json_of(&ws[i]);
        let ghost iv = item@;
        items.push(item);
        assert(items.deep_view() =~= before.push(iv));
        assert(ws@.map_values(|w: WorkflowContext| workflow_json(workflow_context_view(w))).take(i + 1) =~= before.push(iv));
        i += 1;
    }
    assert(ws@.map_values(|w: WorkflowContext| workflow_json(workflow_context_view(w))).take(i as int) =~= ws@.map_values(
        |w: WorkflowContext| workflow_json(workflow_context_view(w)),
    ));
    json_array_of(&items)
}

fn priorities_json_of(ps: &Vec<PriorityContext>) -> (r: String)
    ensures
        r@ == json_array(ps@.map_values(|p: PriorityContext| priority_json((p.value, p.name@)))),
{
    let mut items: Vec<String> = Vec::new();
    let mut i: usize = 0;
    while i < ps.len()
        invariant
            i <= ps@.len(),
            items.deep_view() == ps@.map_values(|p: PriorityContext| priority_json((p.value, p.name@))).take(i as int),
        decreases ps@.len() - i,
    {
        let ghost before = items.deep_view();
        let mut item = owned("{\"value\":");
        item.append(decimal(ps[i].value as u64).as_str());
        item.append(",\"name\":");
        item.append(json_string_of(ps[i].name.as_str()).as_str());
        item.append("}");
        let ghost iv = item@;
        items.push(item);
        assert(items.deep_view() =~= before.push(iv));
        assert(ps@.map_values(|p: PriorityContext| priority_json((p.value, p.name@))).take(i + 1) =~= before.push(iv));
        i += 1;
    }
    assert(ps@.map_values(|p: PriorityContext| priority_json((p.value, p.name@))).take(i as int) =~= ps@.map_values(
        |p: PriorityContext| priority_json((p.value, p.name@)),
    ));
    json_array_of(&items)
}

fn releases_json_of(ms: &Vec<SemanticReleaseMapping>) -> (r: String)
    ensures
        r@ == json_array(ms@.map_values(|m: SemanticReleaseMapping| release_json((m.issue_type@, m.category@)))),
{
    let mut items: Vec<String> = Vec::new();
    let mut i: usize = 0;
    while i < ms.len()
        invariant
            i <= ms@.len(),
            items.deep_view() == ms@.map_values(|m: SemanticReleaseMapping| release_json((m.issue_type@, m.category@))).take(i as int),
        decreases ms@.len() - i,
    {
        let ghost before = items.deep_view();
        let mut item = owned("{\"type\":");
        item.append(json_string_of(ms[i].issue_type.as_str()).as_str());
        item.append(",\"category\":");
        item.append(json_string_of(ms[i].category.as_str()).as_str());
        item.append("}");
        let ghost iv = item@;
        items.push(item);
        assert(items.deep_view() =~= before.push(iv));
        assert(ms@.map_values(|m: SemanticReleaseMapping| release_json((m.issue_type@, m.category@))).take(i + 1) =~= before.push(iv));
        i += 1;
    }
    assert(ms@.map_values(|m: SemanticReleaseMapping| release_json((m.issue_type@, m.category@))).take(i as int) =~= ms@.map_values(
        |m: SemanticReleaseMapping| release_json((m.issue_type@, m.category@)),
    ));
    json_array_of(&items)
}

/// The guide's values as JSON text, for the template engine.
#[verifier::rlimit(80)]
pub fn guide_values_json(c: &ProjectManagementContext) -> (r: String)
    ensures
        r@ == guide_json(*c),
{
    let mut out = owned("{\"project_key\":");
    out.append(json_string_of(c.project_key.as_str()).as_str());
    out.append(",\"hierarchy_order\":");
    out.append(json_string_of(c.hierarchy_order.as_str()).as_str());
    out.append(",\"non_hierarchical_types\":");
    out.append(json_strings_of(&c.non_hierarchical_types).as_str());
    out.append(",\"parent_child_rules\":");
    out.append(json_strings_of(&c.parent_child_rules).as_str());
    out.append(",\"initial_status\":");
    out.append(json_string_of(c.initial_status.as_str()).as_str());
    out.append(",\"workflows\":");
    out.append(workflows_json_of(&c.workflows).as_str());
    out.append(",\"priorities\":");
    out.append(priorities_json_of(&c.priorities).as_str());
    out.append(",\"default_priority_value\":");
    out.append(decimal(c.default_priority_value as u64).as_str());
    out.append(",\"default_priority_name\":");
    out.append(json_string_of(c.default_priority_name.as_str()).as_str());
    out.append(",\"command_examples\":");
    out.append(json_strings_of(&c.command_examples).as_str());
    out.append(",\"semantic_release_mapping\":");
    out.append(releases_json_of(&c.semantic_release_mapping).as_str());
    out.append(",\"has_story\":");
    out.append(if c.has_story { "true" } else { "false" });
    out.append(",\"gherkin_example\":");
    out.append(json_strings_of(&c.gherkin_example).as_str());
    out.append("}");
    proof {
        assert(c.workflows@.map_values(|w: WorkflowContext| workflow_context_view(w)).map_values(
            |w: (Seq<char>, Seq<(Seq<char>, Seq<Seq<char>>)>)| workflow_json(w),
        ) =~= c.workflows@.map_values(|w: WorkflowContext| workflow_json(workflow_context_view(w))));
        assert(c.priorities@.map_values(|p: PriorityContext| (p.value, p.name@)).map_values(
            |p: (u8, Seq<char>)| priority_json(p),
        ) =~= c.priorities@.map_values(|p: PriorityContext| priority_json((p.value, p.name@))));
        assert(c.semantic_release_mapping@.map_values(|m: SemanticReleaseMapping| (m.issue_type@, m.category@)).map_values(
            |m: (Seq<char>, Seq<char>)| release_json(m),
        ) =~= c.semantic_release_mapping@.map_values(
            |m: SemanticReleaseMapping| release_json((m.issue_type@, m.category@)),
        ));
        reveal_strlit("true");
        reveal_strlit("false");
        assert(out@ =~= guide_json(*c));
    }
    out
}

proof fn lemma_guide_json_of_context(c: ProjectConfiguration, x: ProjectManagementContext)
    requires
        x.project_key@ == c.project_key@,
        x.hierarchy_order@ == hierarchy_order(c.hierarchy.deep_view()),
        x.non_hierarchical_types.deep_view() == c.types.deep_view(),
        x.parent_child_rules.deep_view() == parent_child_rules(c.hierarchy.deep_view(), c.types.deep_view()),
        x.initial_status@ == c.initial_status@,
        describes_workflows(x.workflows@, workflows_view(c.workflows@)),
        x.priorities@.len() == c.priorities@.len(),
        forall|i: int|
            0 <= i < x.priorities@.len() ==> (#[trigger] x.priorities@[i]).value == c.priorities@[i].0
                && x.priorities@[i].name@ == c.priorities@[i].1.name@,
        x.default_priority_value == c.default_priority,
        x.default_priority_name@ == default_priority_name(c.priorities@, c.default_priority),
        x.command_examples.deep_view() == command_examples(
            c.hierarchy.deep_view(),
            c.types.deep_view(),
            example_priority(c.priorities@, c.default_priority),
            example_workflow(workflows_view(c.workflows@)),
            c.initial_status@,
        ),
        x.semantic_release_mapping@.len() == c.types@.len(),
        forall|i: int|
            0 <= i < x.semantic_release_mapping@.len() ==> (#[trigger] x.semantic_release_mapping@[i]).issue_type@
                == c.types@[i]@ && x.semantic_release_mapping@[i].category@ == release_category(c.types@[i]@),
        x.has_story == has_story_type(c.types.deep_view()),
        x.gherkin_example.deep_view() == gherkin_example(),
    ensures
        guide_json(x) == configuration_guide_json(c),
{
    let ws = workflows_view(c.workflows@);
    assert forall|i: int| 0 <= i < x.workflows@.len() implies #[trigger] workflow_context_view(x.workflows@[i]) == ws[i] by {
        let w = x.workflows@[i];
        assert(describes_workflow(w.statuses@, ws[i].1));
        assert(w.statuses@.map_values(|s: WorkflowStatusContext| status_context_view(s)) =~= ws[i].1);
    }
    assert(x.workflows@.map_values(|w: WorkflowContext| workflow_context_view(w)) =~= ws);
    assert(x.priorities@.map_values(|p: PriorityContext| (p.value, p.name@)) =~= c.priorities@.map_values(
        |p: (u8, PriorityDefinition)| (p.0, p.1.name@),
    ));
    let t = c.types.deep_view();
    assert(x.semantic_release_mapping@.map_values(|m: SemanticReleaseMapping| (m.issue_type@, m.category@))
        =~= t.map_values(|y: Seq<char>| (y, release_category(y))));
}

/// What `minijinja` renders a template to with the given values: the
/// rendered text, or the text of the error.
pub uninterp spec fn rendered_template(template: Seq<char>, values: JsonValue) -> Result<Seq<char>, Seq<char>>;

/// Render a template with the given values:
/// `minijinja::Environment::new().render_str`, with the values carried over
/// as a `serde_json::Value`; an error is given back as its text. The result
/// depends on the template and the values alone; it is named, not spelled
/// out.
#[verifier::external_body]
fn render_template(template: &str, values: &JsonValue) -> (r: Result<String, String>)
    ensures
        match r {
            Ok(t) => rendered_template(template@, *values) == Ok::<Seq<char>, Seq<char>>(t@),
            Err(m) => rendered_template(template@, *values) == Err::<Seq<char>, Seq<char>>(m@),
        },
{
    match minijinja::Environment::new().render_str(template, serde_value_of_json(values)) {
        Ok(text) => Ok(text),
        Err(e) => Err(e.to_string()),
    }
}

/// The guide from what rendering gave: the text, or an issue-operation error
/// with the engine's message.
pub fn guide_from_rendering(rendered: Result<String, String>) -> (r: Result<String, KanbusError>)
    ensures
        match rendered {
            Ok(t) => r matches Ok(s) && s@ == t@,
            Err(m) => r matches Err(e) && e is IssueOperation && e->IssueOperation_0@ == m@,
        },
{
    match rendered {
        Ok(t) => Ok(t),
        Err(m) => Err(KanbusError::IssueOperation(m)),
    }
}

/// The project management guide: the template rendered with the values
/// that the configuration gives, read from their JSON text.
pub fn project_management_text(template: &str, configuration: &ProjectConfiguration) -> (r: Result<String, KanbusError>)
    ensures
        match json_text_value(configuration_guide_json(*configuration)) {
            Err(m) => r matches Err(e) && e is IssueOperation && e->IssueOperation_0@ == m,
            Ok(v) => match rendered_template(template@, v) {
                Ok(t) => r matches Ok(s) && s@ == t,
                Err(m) => r matches Err(e) && e is IssueOperation && e->IssueOperation_0@ == m,
            },
        },
{
    let context = build_project_management_context(configuration);
    let values = guide_values_json(&context);
    proof {
        lemma_guide_json_of_context(*configuration, context);
    }
    match json_text_value_of(values.as_str()) {
        Err(m) => Err(KanbusError::IssueOperation(m)),
        Ok(v) => guide_from_rendering(render_template(template, &v)),
    }
}

} // verus!
