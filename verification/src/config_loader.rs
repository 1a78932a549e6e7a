//! Configuration rules beyond the schema.

use vstd::prelude::*;
use vstd::string::*;

use crate::config::default_hierarchy;
use crate::error::KanbusError;
use crate::json_value::{yaml_text_value, yaml_text_value_of, JsonValue};
use crate::models::{CategoryDefinition, ProjectConfiguration, StatusDefinition, StatusTransitionLabels, StatusTransitions};
use crate::text::{
    contains_str, contains_text, equals, find_char, first_pos, lemma_first_pos, has_prefix, has_substring, index_in, join3,
    lemma_index_in, owned, position, starts_with, substring, trim, trim_start, trim_start_ws, trim_ws,
};

verus! {

/// One message when `cond` holds, none otherwise.
pub open spec fn when(cond: bool, message: Seq<char>) -> Seq<Seq<char>> {
    if cond {
        seq![message]
    } else {
        seq![]
    }
}

/// The other accepted hierarchy.
pub open spec fn alternate_hierarchy() -> Seq<Seq<char>> {
    seq!["initiative"@, "epic"@, "issue"@, "subtask"@]
}

/// Text wrapped as `{a}'{x}'{b}`.
pub open spec fn quoted(a: Seq<char>, x: Seq<char>, b: Seq<char>) -> Seq<char> {
    a + seq!['\''] + x + seq!['\''] + b
}

/// Labels of the virtual projects.
pub open spec fn virtual_labels(c: ProjectConfiguration) -> Seq<Seq<char>> {
    c.virtual_projects@.map_values(|e: (String, String)| e.0@)
}

/// Names of the workflows.
pub open spec fn workflow_names(c: ProjectConfiguration) -> Seq<Seq<char>> {
    c.workflows@.map_values(|e: (String, Vec<StatusTransitions>)| e.0@)
}

/// Keys of the statuses.
pub open spec fn status_keys(statuses: Seq<StatusDefinition>) -> Seq<Seq<char>> {
    statuses.map_values(|s: StatusDefinition| s.key@)
}

/// Names of the statuses.
pub open spec fn status_names(statuses: Seq<StatusDefinition>) -> Seq<Seq<char>> {
    statuses.map_values(|s: StatusDefinition| s.name@)
}

/// Names of the categories.
pub open spec fn category_names(categories: Seq<CategoryDefinition>) -> Seq<Seq<char>> {
    categories.map_values(|c: CategoryDefinition| c.name@)
}

/// The first type of `ts` that no workflow is named after.
pub open spec fn first_unbound(ts: Seq<Seq<char>>, names: Seq<Seq<char>>) -> Option<Seq<char>>
    decreases ts.len(),
{
    if ts.len() == 0 {
        None
    } else {
        match first_unbound(ts.drop_last(), names) {
            Some(x) => Some(x),
            None => if !names.contains(ts.last()) {
                Some(ts.last())
            } else {
                None
            },
        }
    }
}

/// The category names seen before the first repeated one (all of them when
/// none repeats).
pub open spec fn names_before_repeat(names: Seq<Seq<char>>) -> Seq<Seq<char>>
    decreases names.len(),
{
    if names.len() == 0 {
        seq![]
    } else {
        let p = names_before_repeat(names.drop_last());
        if p.len() < names.len() - 1 || names.drop_last().contains(names.last()) {
            p
        } else {
            p.push(names.last())
        }
    }
}

/// What is wrong with status `k` given those before it, if anything.
pub open spec fn status_issue(statuses: Seq<StatusDefinition>, k: int, categories: Seq<Seq<char>>) -> Option<Seq<char>> {
    let s = statuses[k];
    if status_keys(statuses.subrange(0, k)).contains(s.key@) {
        Some("duplicate status key"@)
    } else if status_names(statuses.subrange(0, k)).contains(s.name@) {
        Some("duplicate status name"@)
    } else if categories.len() > 0 && !categories.contains(s.category@) {
        Some(quoted("status "@, s.key@, " references undefined category "@) + seq!['\''] + s.category@ + seq!['\''])
    } else {
        None
    }
}

/// The first status problem among the first `n` statuses.
pub open spec fn first_status_issue(statuses: Seq<StatusDefinition>, n: int, categories: Seq<Seq<char>>) -> Option<Seq<char>>
    decreases n,
{
    if n <= 0 {
        None
    } else {
        match first_status_issue(statuses, n - 1, categories) {
            Some(m) => Some(m),
            None => status_issue(statuses, n - 1, categories),
        }
    }
}

/// Messages for targets of a workflow that are not statuses.
pub open spec fn undefined_targets(workflow: Seq<char>, targets: Seq<Seq<char>>, keys: Seq<Seq<char>>) -> Seq<Seq<char>>
    decreases targets.len(),
{
    if targets.len() == 0 {
        seq![]
    } else {
        undefined_targets(workflow, targets.drop_last(), keys) + when(
            !keys.contains(targets.last()),
            quoted("workflow "@, workflow, " references undefined status "@) + seq!['\''] + targets.last() + seq!['\''],
        )
    }
}

/// Messages for statuses of one workflow that are not defined.
pub open spec fn undefined_in_workflow(workflow: Seq<char>, entries: Seq<StatusTransitions>, keys: Seq<Seq<char>>) -> Seq<Seq<char>>
    decreases entries.len(),
{
    if entries.len() == 0 {
        seq![]
    } else {
        let e = entries.last();
        undefined_in_workflow(workflow, entries.drop_last(), keys) + when(
            !keys.contains(e.0@),
            quoted("workflow "@, workflow, " references undefined status "@) + seq!['\''] + e.0@ + seq!['\''],
        ) + undefined_targets(workflow, e.1.deep_view(), keys)
    }
}

/// Messages for statuses of all workflows that are not defined.
pub open spec fn undefined_statuses(workflows: Seq<(String, Vec<StatusTransitions>)>, keys: Seq<Seq<char>>) -> Seq<Seq<char>>
    decreases workflows.len(),
{
    if workflows.len() == 0 {
        seq![]
    } else {
        undefined_statuses(workflows.drop_last(), keys) + undefined_in_workflow(workflows.last().0@, workflows.last().1@, keys)
    }
}

/// `x` in single quotes.
pub open spec fn q(x: Seq<char>) -> Seq<char> {
    seq!['\''] + x + seq!['\'']
}

/// Messages for targets that have no label.
pub open spec fn missing_transitions(
    workflow: Seq<char>,
    from: Seq<char>,
    targets: Seq<Seq<char>>,
    labeled: Seq<Seq<char>>,
) -> Seq<Seq<char>>
    decreases targets.len(),
{
    if targets.len() == 0 {
        seq![]
    } else {
        missing_transitions(workflow, from, targets.drop_last(), labeled) + when(
            !labeled.contains(targets.last()),
            "transition_labels missing transition "@ + q(from) + " -> "@ + q(targets.last()) + " in workflow "@ + q(workflow),
        )
    }
}

/// Messages for labels of transitions that the workflow does not allow.
pub open spec fn invalid_transitions(
    workflow: Seq<char>,
    from: Seq<char>,
    labeled: Seq<Seq<char>>,
    targets: Seq<Seq<char>>,
) -> Seq<Seq<char>>
    decreases labeled.len(),
{
    if labeled.len() == 0 {
        seq![]
    } else {
        invalid_transitions(workflow, from, labeled.drop_last(), targets) + when(
            !targets.contains(labeled.last()),
            "transition_labels references invalid transition "@ + q(from) + " -> "@ + q(labeled.last()) + " in workflow "@
                + q(workflow),
        )
    }
}

/// Keys of the label table of one workflow.
pub open spec fn label_froms(wl: Seq<StatusTransitionLabels>) -> Seq<Seq<char>> {
    wl.map_values(|e: StatusTransitionLabels| e.0@)
}

/// Targets that carry a label, out of one status.
pub open spec fn labeled_targets(fl: Seq<(String, String)>) -> Seq<Seq<char>> {
    fl.map_values(|e: (String, String)| e.0@)
}

/// Label problems of one status of a workflow.
pub open spec fn entry_label_issues(workflow: Seq<char>, e: StatusTransitions, wl: Seq<StatusTransitionLabels>) -> Seq<Seq<char>> {
    let j = index_in(label_froms(wl), e.0@);
    if j < 0 {
        seq!["transition_labels missing from-status "@ + q(e.0@) + " in workflow "@ + q(workflow)]
    } else {
        let fl = labeled_targets(wl[j].1@);
        missing_transitions(workflow, e.0@, e.1.deep_view(), fl) + invalid_transitions(workflow, e.0@, fl, e.1.deep_view())
    }
}

/// Label problems of the statuses of a workflow.
pub open spec fn entries_label_issues(workflow: Seq<char>, entries: Seq<StatusTransitions>, wl: Seq<StatusTransitionLabels>) -> Seq<Seq<char>>
    decreases entries.len(),
{
    if entries.len() == 0 {
        seq![]
    } else {
        entries_label_issues(workflow, entries.drop_last(), wl) + entry_label_issues(workflow, entries.last(), wl)
    }
}

/// Messages for labeled statuses that the workflow does not have.
pub open spec fn invalid_froms(workflow: Seq<char>, labeled: Seq<Seq<char>>, froms: Seq<Seq<char>>) -> Seq<Seq<char>>
    decreases labeled.len(),
{
    if labeled.len() == 0 {
        seq![]
    } else {
        invalid_froms(workflow, labeled.drop_last(), froms) + when(
            !froms.contains(labeled.last()),
            "transition_labels references invalid from-status "@ + q(labeled.last()) + " in workflow "@ + q(workflow),
        )
    }
}

/// Statuses of a workflow.
pub open spec fn workflow_froms(entries: Seq<StatusTransitions>) -> Seq<Seq<char>> {
    entries.map_values(|e: StatusTransitions| e.0@)
}

/// Names of the workflows that have labels.
pub open spec fn label_workflows(labels: Seq<(String, Vec<StatusTransitionLabels>)>) -> Seq<Seq<char>> {
    labels.map_values(|e: (String, Vec<StatusTransitionLabels>)| e.0@)
}

/// Label problems of one workflow.
pub open spec fn workflow_label_issues(
    workflow: Seq<char>,
    entries: Seq<StatusTransitions>,
    labels: Seq<(String, Vec<StatusTransitionLabels>)>,
) -> Seq<Seq<char>> {
    let i = index_in(label_workflows(labels), workflow);
    if i < 0 {
        seq!["transition_labels missing workflow "@ + q(workflow)]
    } else {
        let wl = labels[i].1@;
        entries_label_issues(workflow, entries, wl) + invalid_froms(workflow, label_froms(wl), workflow_froms(entries))
    }
}

/// Label problems of all workflows.
pub open spec fn label_issues(
    workflows: Seq<(String, Vec<StatusTransitions>)>,
    labels: Seq<(String, Vec<StatusTransitionLabels>)>,
) -> Seq<Seq<char>>
    decreases workflows.len(),
{
    if workflows.len() == 0 {
        seq![]
    } else {
        label_issues(workflows.drop_last(), labels) + workflow_label_issues(workflows.last().0@, workflows.last().1@, labels)
    }
}

/// Problems of the project directory and the virtual projects.
pub open spec fn project_errors(c: ProjectConfiguration) -> Seq<Seq<char>> {
    let new_issue = match c.new_issue_project {
        Some(t) => when(
            t@ != "ask"@ && t@ != c.project_key@ && !virtual_labels(c).contains(t@),
            "new_issue_project references unknown project"@,
        ),
        None => seq![],
    };
    when(trim_ws(c.project_directory@).len() == 0, "project_directory must not be empty"@)
        + when(virtual_labels(c).contains(c.project_key@), "virtual project label conflicts with project key"@)
        + new_issue
}

/// The missing-binding problem: the first type that no workflow is named
/// after, when there is no default workflow.
pub open spec fn binding_errors(c: ProjectConfiguration) -> Seq<Seq<char>> {
    if workflow_names(c).contains("default"@) {
        seq![]
    } else {
        match first_unbound(c.types.deep_view() + c.hierarchy.deep_view(), workflow_names(c)) {
            Some(t) => seq![quoted("missing workflow binding for issue type "@, t, seq![])],
            None => seq![],
        }
    }
}

/// Problems of the issue types and their workflows.
pub open spec fn type_errors(c: ProjectConfiguration) -> Seq<Seq<char>> {
    when(c.hierarchy@.len() == 0, "hierarchy must not be empty"@)
        + when(c.hierarchy.deep_view() != default_hierarchy() && c.hierarchy.deep_view() != alternate_hierarchy(), "hierarchy is fixed"@)
        + when(!(c.hierarchy.deep_view() + c.types.deep_view()).no_duplicates(), "duplicate type name"@)
        + when(!workflow_names(c).contains("default"@), "default workflow is required"@)
        + binding_errors(c)
}

/// The first status problem, if any.
pub open spec fn status_errors(c: ProjectConfiguration) -> Seq<Seq<char>> {
    let cats = names_before_repeat(category_names(c.categories@));
    match first_status_issue(c.statuses@, c.statuses@.len() as int, cats) {
        Some(m) => seq![m],
        None => seq![],
    }
}

/// Problems of the label, priority, category and status tables.
pub open spec fn table_errors(c: ProjectConfiguration) -> Seq<Seq<char>> {
    when(c.transition_labels@.len() == 0, "transition_labels must not be empty"@)
        + when(!c.priorities@.map_values(|e: (u8, crate::models::PriorityDefinition)| e.0).contains(c.default_priority), "default priority must be in priorities map"@)
        + when(c.categories@.len() == 0, "categories must not be empty"@)
        + when(!category_names(c.categories@).no_duplicates(), "duplicate category name"@)
        + when(c.statuses@.len() == 0, "statuses must not be empty"@)
        + status_errors(c)
}

/// Problems of the statuses that the workflows and labels name.
pub open spec fn reference_errors(c: ProjectConfiguration) -> Seq<Seq<char>> {
    when(!status_keys(c.statuses@).contains(c.initial_status@), quoted("initial_status "@, c.initial_status@, " must exist in statuses"@))
        + undefined_statuses(c.workflows@, status_keys(c.statuses@))
        + label_issues(c.workflows@, c.transition_labels@)
}

/// Every problem of a configuration, in the order the rules are checked.
pub open spec fn configuration_errors(c: ProjectConfiguration) -> Seq<Seq<char>> {
    project_errors(c) + type_errors(c) + table_errors(c) + reference_errors(c)
}

/// A configuration with no problems is accepted as the rules describe it:
/// a project directory, a hierarchy, a default workflow, the default
/// priority among the priorities, distinct type names, non-empty label,
/// category and status tables, an initial status that is a status key,
/// every workflow status defined, and labels for exactly the transitions.
pub proof fn lemma_accepted_configuration(c: ProjectConfiguration)
    requires
        configuration_errors(c).len() == 0,
    ensures
        trim_ws(c.project_directory@).len() > 0,
        c.hierarchy@.len() > 0,
        (c.hierarchy.deep_view() + c.types.deep_view()).no_duplicates(),
        workflow_names(c).contains("default"@),
        c.priorities@.map_values(|e: (u8, crate::models::PriorityDefinition)| e.0).contains(c.default_priority),
        c.transition_labels@.len() > 0,
        c.categories@.len() > 0,
        category_names(c.categories@).no_duplicates(),
        c.statuses@.len() > 0,
        status_errors(c).len() == 0,
        status_keys(c.statuses@).contains(c.initial_status@),
        undefined_statuses(c.workflows@, status_keys(c.statuses@)).len() == 0,
        label_issues(c.workflows@, c.transition_labels@).len() == 0,
{
}

/// Each status of each workflow, and each status it leads to, is a key of
/// `keys`.
pub open spec fn statuses_defined(workflows: Seq<(String, Vec<StatusTransitions>)>, keys: Seq<Seq<char>>) -> bool {
    forall|w: int, k: int|
        0 <= w < workflows.len() && 0 <= k < workflows[w].1@.len() ==> keys.contains(
            (#[trigger] workflows[w].1@[k]).0@,
        ) && (forall|t: Seq<char>| workflows[w].1@[k].1.deep_view().contains(t) ==> keys.contains(t))
}

/// The labels of one status are for exactly its transitions.
pub open spec fn entry_labeled(e: StatusTransitions, wl: Seq<StatusTransitionLabels>) -> bool {
    let j = index_in(label_froms(wl), e.0@);
    &&& j >= 0
    &&& forall|t: Seq<char>| e.1.deep_view().contains(t) <==> labeled_targets(wl[j].1@).contains(t)
}

/// A workflow has labels, for exactly the transitions of each of its
/// statuses and for none of the statuses it lacks.
pub open spec fn workflow_labeled(
    workflow: Seq<char>,
    entries: Seq<StatusTransitions>,
    labels: Seq<(String, Vec<StatusTransitionLabels>)>,
) -> bool {
    let i = index_in(label_workflows(labels), workflow);
    &&& i >= 0
    &&& forall|k: int| 0 <= k < entries.len() ==> entry_labeled(#[trigger] entries[k], labels[i].1@)
    &&& forall|f: Seq<char>| label_froms(labels[i].1@).contains(f) ==> workflow_froms(entries).contains(f)
}

/// Every workflow is labeled as `workflow_labeled` says.
pub open spec fn labels_match_workflows(
    workflows: Seq<(String, Vec<StatusTransitions>)>,
    labels: Seq<(String, Vec<StatusTransitionLabels>)>,
) -> bool {
    forall|w: int| 0 <= w < workflows.len() ==> workflow_labeled((#[trigger] workflows[w]).0@, workflows[w].1@, labels)
}

proof fn lemma_no_status_issue(statuses: Seq<StatusDefinition>, n: int, cats: Seq<Seq<char>>, k: int)
    requires
        first_status_issue(statuses, n, cats) is None,
        0 <= k < n,
    ensures
        status_issue(statuses, k, cats) is None,
    decreases n,
{
    if k < n - 1 {
        lemma_no_status_issue(statuses, n - 1, cats, k);
    }
}

proof fn lemma_statuses_distinct(c: ProjectConfiguration)
    requires
        status_errors(c).len() == 0,
    ensures
        status_keys(c.statuses@).no_duplicates(),
        status_names(c.statuses@).no_duplicates(),
{
    let ss = c.statuses@;
    let cats = names_before_repeat(category_names(c.categories@));
    assert(first_status_issue(ss, ss.len() as int, cats) is None);
    assert forall|i: int, j: int| 0 <= i < j < ss.len() implies status_keys(ss)[i] != status_keys(ss)[j]
        && status_names(ss)[i] != status_names(ss)[j] by {
        lemma_no_status_issue(ss, ss.len() as int, cats, j);
        assert(status_keys(ss.subrange(0, j))[i] == ss[i].key@);
        assert(status_names(ss.subrange(0, j))[i] == ss[i].name@);
    }
}

proof fn lemma_targets_defined(workflow: Seq<char>, targets: Seq<Seq<char>>, keys: Seq<Seq<char>>)
    requires
        undefined_targets(workflow, targets, keys).len() == 0,
    ensures
        forall|t: Seq<char>| targets.contains(t) ==> keys.contains(t),
    decreases targets.len(),
{
    if targets.len() > 0 {
        lemma_targets_defined(workflow, targets.drop_last(), keys);
        assert forall|t: Seq<char>| targets.contains(t) implies keys.contains(t) by {
            let k = choose|k: int| 0 <= k < targets.len() && targets[k] == t;
            if k < targets.len() - 1 {
                assert(targets.drop_last()[k] == t);
            }
        }
    }
}

proof fn lemma_workflow_defined(workflow: Seq<char>, entries: Seq<StatusTransitions>, keys: Seq<Seq<char>>)
    requires
        undefined_in_workflow(workflow, entries, keys).len() == 0,
    ensures
        forall|k: int|
            0 <= k < entries.len() ==> keys.contains((#[trigger] entries[k]).0@) && (forall|t: Seq<char>|
                entries[k].1.deep_view().contains(t) ==> keys.contains(t)),
    decreases entries.len(),
{
    if entries.len() > 0 {
        let e = entries.last();
        lemma_workflow_defined(workflow, entries.drop_last(), keys);
        lemma_targets_defined(workflow, e.1.deep_view(), keys);
        assert forall|k: int| 0 <= k < entries.len() implies keys.contains((#[trigger] entries[k]).0@) && (forall|
            t: Seq<char>,
        | entries[k].1.deep_view().contains(t) ==> keys.contains(t)) by {
            if k < entries.len() - 1 {
                assert(entries.drop_last()[k] == entries[k]);
            }
        }
    }
}

proof fn lemma_statuses_defined(workflows: Seq<(String, Vec<StatusTransitions>)>, keys: Seq<Seq<char>>)
    requires
        undefined_statuses(workflows, keys).len() == 0,
    ensures
        statuses_defined(workflows, keys),
    decreases workflows.len(),
{
    if workflows.len() > 0 {
        let last = workflows.last();
        lemma_statuses_defined(workflows.drop_last(), keys);
        lemma_workflow_defined(last.0@, last.1@, keys);
        assert forall|w: int, k: int| 0 <= w < workflows.len() && 0 <= k < workflows[w].1@.len() implies keys.contains(
            (#[trigger] workflows[w].1@[k]).0@,
        ) && (forall|t: Seq<char>| workflows[w].1@[k].1.deep_view().contains(t) ==> keys.contains(t)) by {
            if w < workflows.len() - 1 {
                assert(workflows.drop_last()[w] == workflows[w]);
            } else {
                assert(last.1@[k] == workflows[w].1@[k]);
            }
        }
    }
}

proof fn lemma_missing_none(workflow: Seq<char>, from: Seq<char>, targets: Seq<Seq<char>>, labeled: Seq<Seq<char>>)
    requires
        missing_transitions(workflow, from, targets, labeled).len() == 0,
    ensures
        forall|t: Seq<char>| targets.contains(t) ==> labeled.contains(t),
    decreases targets.len(),
{
    if targets.len() > 0 {
        lemma_missing_none(workflow, from, targets.drop_last(), labeled);
        assert forall|t: Seq<char>| targets.contains(t) implies labeled.contains(t) by {
            let k = choose|k: int| 0 <= k < targets.len() && targets[k] == t;
            if k < targets.len() - 1 {
                assert(targets.drop_last()[k] == t);
            }
        }
    }
}

proof fn lemma_invalid_none(workflow: Seq<char>, from: Seq<char>, labeled: Seq<Seq<char>>, targets: Seq<Seq<char>>)
    requires
        invalid_transitions(workflow, from, labeled, targets).len() == 0,
    ensures
        forall|t: Seq<char>| labeled.contains(t) ==> targets.contains(t),
    decreases labeled.len(),
{
    if labeled.len() > 0 {
        lemma_invalid_none(workflow, from, labeled.drop_last(), targets);
        assert forall|t: Seq<char>| labeled.contains(t) implies targets.contains(t) by {
            let k = choose|k: int| 0 <= k < labeled.len() && labeled[k] == t;
            if k < labeled.len() - 1 {
                assert(labeled.drop_last()[k] == t);
            }
        }
    }
}

proof fn lemma_invalid_froms_none(workflow: Seq<char>, labeled: Seq<Seq<char>>, froms: Seq<Seq<char>>)
    requires
        invalid_froms(workflow, labeled, froms).len() == 0,
    ensures
        forall|f: Seq<char>| labeled.contains(f) ==> froms.contains(f),
    decreases labeled.len(),
{
    if labeled.len() > 0 {
        lemma_invalid_froms_none(workflow, labeled.drop_last(), froms);
        assert forall|f: Seq<char>| labeled.contains(f) implies froms.contains(f) by {
            let k = choose|k: int| 0 <= k < labeled.len() && labeled[k] == f;
            if k < labeled.len() - 1 {
                assert(labeled.drop_last()[k] == f);
            }
        }
    }
}

proof fn lemma_entries_labeled(workflow: Seq<char>, entries: Seq<StatusTransitions>, wl: Seq<StatusTransitionLabels>)
    requires
        entries_label_issues(workflow, entries, wl).len() == 0,
    ensures
        forall|k: int| 0 <= k < entries.len() ==> entry_labeled(#[trigger] entries[k], wl),
    decreases entries.len(),
{
    if entries.len() > 0 {
        let e = entries.last();
        lemma_entries_labeled(workflow, entries.drop_last(), wl);
        let j = index_in(label_froms(wl), e.0@);
        assert(j >= 0);
        let fl = labeled_targets(wl[j].1@);
        lemma_missing_none(workflow, e.0@, e.1.deep_view(), fl);
        lemma_invalid_none(workflow, e.0@, fl, e.1.deep_view());
        assert(entry_labeled(e, wl));
        assert forall|k: int| 0 <= k < entries.len() implies entry_labeled(#[trigger] entries[k], wl) by {
            if k < entries.len() - 1 {
                assert(entries.drop_last()[k] == entries[k]);
            }
        }
    }
}

proof fn lemma_labels_match(
    workflows: Seq<(String, Vec<StatusTransitions>)>,
    labels: Seq<(String, Vec<StatusTransitionLabels>)>,
)
    requires
        label_issues(workflows, labels).len() == 0,
    ensures
        labels_match_workflows(workflows, labels),
    decreases workflows.len(),
{
    if workflows.len() > 0 {
        let last = workflows.last();
        lemma_labels_match(workflows.drop_last(), labels);
        let i = index_in(label_workflows(labels), last.0@);
        assert(i >= 0);
        let wl = labels[i].1@;
        lemma_entries_labeled(last.0@, last.1@, wl);
        lemma_invalid_froms_none(last.0@, label_froms(wl), workflow_froms(last.1@));
        assert(workflow_labeled(last.0@, last.1@, labels));
        assert forall|w: int| 0 <= w < workflows.len() implies workflow_labeled(
            (#[trigger] workflows[w]).0@,
            workflows[w].1@,
            labels,
        ) by {
            if w < workflows.len() - 1 {
                assert(workflows.drop_last()[w] == workflows[w]);
            }
        }
    }
}

/// An accepted configuration, in the rules' own words: a non-blank project
/// directory, a hierarchy, a default workflow, the default priority among
/// the priorities, status keys and status names each used once, an initial
/// status and workflow statuses (from and to) that are all status keys, and
/// for every workflow labels for exactly the transitions of each of its
/// statuses.
pub proof fn lemma_accepted_configuration_rules(c: ProjectConfiguration)
    requires
        configuration_errors(c).len() == 0,
    ensures
        trim_ws(c.project_directory@).len() > 0,
        c.hierarchy@.len() > 0,
        workflow_names(c).contains("default"@),
        c.priorities@.map_values(|e: (u8, crate::models::PriorityDefinition)| e.0).contains(c.default_priority),
        status_keys(c.statuses@).no_duplicates(),
        status_names(c.statuses@).no_duplicates(),
        status_keys(c.statuses@).contains(c.initial_status@),
        statuses_defined(c.workflows@, status_keys(c.statuses@)),
        labels_match_workflows(c.workflows@, c.transition_labels@),
{
    lemma_accepted_configuration(c);
    lemma_statuses_distinct(c);
    lemma_statuses_defined(c.workflows@, status_keys(c.statuses@));
    lemma_labels_match(c.workflows@, c.transition_labels@);
}

fn quote_append(s: &mut String, x: &str)
    ensures
        final(s)@ == old(s)@ + q(x@),
{
    crate::text::push_char(s, '\'');
    s.append(x);
    crate::text::push_char(s, '\'');
}

fn push_message(v: &mut Vec<String>, m: String)
    ensures
        final(v).deep_view() == old(v).deep_view().push(m@),
{
    let ghost before = v.deep_view();
    v.push(m);
    assert(v.deep_view() =~= before.push(m@));
}

fn append_messages(v: &mut Vec<String>, mut more: Vec<String>)
    ensures
        final(v).deep_view() == old(v).deep_view() + more.deep_view(),
{
    let ghost a = v.deep_view();
    let ghost b = more.deep_view();
    v.append(&mut more);
    assert(v.deep_view() =~= a + b);
}

fn messages_when(cond: bool, m: &str) -> (r: Vec<String>)
    ensures
        r.deep_view() == when(cond, m@),
{
    let mut v: Vec<String> = Vec::new();
    if cond {
        push_message(&mut v, owned(m));
    }
    assert(v.deep_view() =~= when(cond, m@));
    v
}

pub(crate) fn strings_equal(a: &Vec<String>, b: &Vec<String>) -> (r: bool)
    ensures
        r == (a.deep_view() == b.deep_view()),
{
    if a.len() != b.len() {
        assert(a.deep_view().len() != b.deep_view().len());
        return false;
    }
    let mut i: usize = 0;
    while i < a.len()
        invariant
            i <= a@.len(),
            a@.len() == b@.len(),
            forall|k: int| 0 <= k < i ==> a.deep_view()[k] == b.deep_view()[k],
        decreases a@.len() - i,
    {
        if !equals(&a[i], &b[i]) {
            assert(a.deep_view()[i as int] != b.deep_view()[i as int]);
            return false;
        }
        i += 1;
    }
    assert(a.deep_view() =~= b.deep_view());
    true
}

fn has_duplicate(v: &Vec<String>) -> (r: bool)
    ensures
        r == !v.deep_view().no_duplicates(),
{
    let ghost s = v.deep_view();
    let mut seen: Vec<String> = Vec::new();
    let mut i: usize = 0;
    while i < v.len()
        invariant
            i <= v@.len(),
            s == v.deep_view(),
            seen.deep_view() == s.subrange(0, i as int),
            s.subrange(0, i as int).no_duplicates(),
        decreases v@.len() - i,
    {
        if contains_str(&seen, &v[i]) {
            proof {
                let k = choose|k: int| 0 <= k < i && s.subrange(0, i as int)[k] == s[i as int];
                assert(s[k] == s[i as int]);
            }
            return true;
        }
        push_message(&mut seen, v[i].clone());
        assert(seen.deep_view() =~= s.subrange(0, i + 1));
        i += 1;
    }
    assert(s.subrange(0, v@.len() as int) =~= s);
    false
}

fn alternate_hierarchy_list() -> (r: Vec<String>)
    ensures
        r.deep_view() == alternate_hierarchy(),
{
    let mut v: Vec<String> = Vec::new();
    crate::config::push_text(&mut v, "initiative");
    crate::config::push_text(&mut v, "epic");
    crate::config::push_text(&mut v, "issue");
    crate::config::push_text(&mut v, "subtask");
    assert(v.deep_view() =~= alternate_hierarchy());
    v
}

fn labels_of_virtual_projects(c: &ProjectConfiguration) -> (r: Vec<String>)
    ensures
        r.deep_view() == virtual_labels(*c),
{
    let mut v: Vec<String> = Vec::new();
    let mut i: usize = 0;
    while i < c.virtual_projects.len()
        invariant
            i <= c.virtual_projects@.len(),
            v.deep_view() == virtual_labels(*c).subrange(0, i as int),
        decreases c.virtual_projects@.len() - i,
    {
        push_message(&mut v, c.virtual_projects[i].0.clone());
        assert(v.deep_view() =~= virtual_labels(*c).subrange(0, i + 1));
        i += 1;
    }
    assert(virtual_labels(*c).subrange(0, c.virtual_projects@.len() as int) =~= virtual_labels(*c));
    v
}

fn names_of_workflows(c: &ProjectConfiguration) -> (r: Vec<String>)
    ensures
        r.deep_view() == workflow_names(*c),
{
    let mut v: Vec<String> = Vec::new();
    let mut i: usize = 0;
    while i < c.workflows.len()
        invariant
            i <= c.workflows@.len(),
            v.deep_view() == workflow_names(*c).subrange(0, i as int),
        decreases c.workflows@.len() - i,
    {
        push_message(&mut v, c.workflows[i].0.clone());
        assert(v.deep_view() =~= workflow_names(*c).subrange(0, i + 1));
        i += 1;
    }
    assert(workflow_names(*c).subrange(0, c.workflows@.len() as int) =~= workflow_names(*c));
    v
}

pub(crate) fn unbound_type(ts: &Vec<String>, names: &Vec<String>) -> (r: Option<String>)
    ensures
        match r {
            Some(t) => first_unbound(ts.deep_view(), names.deep_view()) == Some(t@),
            None => first_unbound(ts.deep_view(), names.deep_view()) is None,
        },
{
    let ghost s = ts.deep_view();
    let mut i: usize = 0;
    while i < ts.len()
        invariant
            i <= ts@.len(),
            s == ts.deep_view(),
            first_unbound(s.subrange(0, i as int), names.deep_view()) is None,
        decreases ts@.len() - i,
    {
        assert(s.subrange(0, i + 1).drop_last() =~= s.subrange(0, i as int));
        if !contains_str(names, &ts[i]) {
            proof {
                lemma_first_unbound_extends(s, names.deep_view(), i as int + 1);
            }
            return Some(ts[i].clone());
        }
        i += 1;
    }
    assert(s.subrange(0, ts@.len() as int) =~= s);
    None
}

proof fn lemma_first_unbound_extends(s: Seq<Seq<char>>, names: Seq<Seq<char>>, k: int)
    requires
        0 < k <= s.len(),
        first_unbound(s.subrange(0, k), names) is Some,
    ensures
        first_unbound(s, names) == first_unbound(s.subrange(0, k), names),
    decreases s.len() - k,
{
    if k < s.len() {
        assert(s.subrange(0, k + 1).drop_last() =~= s.subrange(0, k));
        lemma_first_unbound_extends(s, names, k + 1);
    } else {
        assert(s.subrange(0, k) =~= s);
    }
}

fn category_name_list(categories: &Vec<CategoryDefinition>) -> (r: Vec<String>)
    ensures
        r.deep_view() == category_names(categories@),
{
    let mut v: Vec<String> = Vec::new();
    let mut i: usize = 0;
    while i < categories.len()
        invariant
            i <= categories@.len(),
            v.deep_view() == category_names(categories@).subrange(0, i as int),
        decreases categories@.len() - i,
    {
        push_message(&mut v, categories[i].name.clone());
        assert(v.deep_view() =~= category_names(categories@).subrange(0, i + 1));
        i += 1;
    }
    assert(category_names(categories@).subrange(0, categories@.len() as int) =~= category_names(categories@));
    v
}

proof fn lemma_names_before_repeat_stays(names: Seq<Seq<char>>, k: int)
    requires
        0 <= k < names.len(),
        names_before_repeat(names.subrange(0, k)).len() == k,
        names.subrange(0, k).contains(names[k]),
    ensures
        names_before_repeat(names) == names.subrange(0, k),
    decreases names.len() - k,
{
    lemma_names_before_repeat_len(names.subrange(0, k));
    assert(names.subrange(0, k + 1).drop_last() =~= names.subrange(0, k));
    assert(names_before_repeat(names.subrange(0, k + 1)) == names_before_repeat(names.subrange(0, k)));
    lemma_names_before_repeat_prefix_fixed(names, k + 1, k);
}

proof fn lemma_names_before_repeat_len(names: Seq<Seq<char>>)
    ensures
        names_before_repeat(names).len() <= names.len(),
        names_before_repeat(names).len() == names.len() ==> names_before_repeat(names) == names,
    decreases names.len(),
{
    if names.len() > 0 {
        lemma_names_before_repeat_len(names.drop_last());
        if names_before_repeat(names).len() == names.len() {
            assert(names =~= names.drop_last().push(names.last()));
        }
    }
}

proof fn lemma_names_before_repeat_prefix_fixed(names: Seq<Seq<char>>, j: int, k: int)
    requires
        0 <= k < j <= names.len(),
        names_before_repeat(names.subrange(0, j)).len() == k,
        names_before_repeat(names.subrange(0, j)) == names.subrange(0, k),
    ensures
        names_before_repeat(names) == names.subrange(0, k),
    decreases names.len() - j,
{
    if j < names.len() {
        assert(names.subrange(0, j + 1).drop_last() =~= names.subrange(0, j));
        lemma_names_before_repeat_prefix_fixed(names, j + 1, k);
    } else {
        assert(names.subrange(0, j) =~= names);
    }
}

fn categories_before_repeat(names: &Vec<String>) -> (r: Vec<String>)
    ensures
        r.deep_view() == names_before_repeat(names.deep_view()),
{
    let ghost s = names.deep_view();
    let mut seen: Vec<String> = Vec::new();
    let mut i: usize = 0;
    assert(s.subrange(0, 0) =~= Seq::<Seq<char>>::empty());
    while i < names.len()
        invariant
            i <= names@.len(),
            s == names.deep_view(),
            seen.deep_view() == s.subrange(0, i as int),
            names_before_repeat(s.subrange(0, i as int)) == s.subrange(0, i as int),
        decreases names@.len() - i,
    {
        assert(s.subrange(0, i + 1).drop_last() =~= s.subrange(0, i as int));
        if contains_str(&seen, &names[i]) {
            proof {
                lemma_names_before_repeat_stays(s, i as int);
            }
            return seen;
        }
        push_message(&mut seen, names[i].clone());
        assert(seen.deep_view() =~= s.subrange(0, i + 1));
        assert(s.subrange(0, i + 1) =~= s.subrange(0, i as int).push(s[i as int]));
        i += 1;
    }
    assert(s.subrange(0, names@.len() as int) =~= s);
    seen
}

fn status_problem(statuses: &Vec<StatusDefinition>, categories: &Vec<String>) -> (r: Option<String>)
    ensures
        match r {
            Some(m) => first_status_issue(statuses@, statuses@.len() as int, categories.deep_view()) == Some(m@),
            None => first_status_issue(statuses@, statuses@.len() as int, categories.deep_view()) is None,
        },
{
    let ghost st = statuses@;
    let mut keys: Vec<String> = Vec::new();
    let mut names: Vec<String> = Vec::new();
    let mut k: usize = 0;
    while k < statuses.len()
        invariant
            k <= st.len(),
            st == statuses@,
            keys.deep_view() == status_keys(st.subrange(0, k as int)),
            names.deep_view() == status_names(st.subrange(0, k as int)),
            first_status_issue(st, k as int, categories.deep_view()) is None,
        decreases st.len() - k,
    {
        let s = &statuses[k];
        proof {
            assert(st.subrange(0, k as int) == st.subrange(0, k as int));
        }
        if contains_str(&keys, &s.key) {
            proof {
                lemma_first_status_issue_fixed(st, k as int + 1, categories.deep_view());
            }
            return Some(owned("duplicate status key"));
        }
        if contains_str(&names, &s.name) {
            proof {
                lemma_first_status_issue_fixed(st, k as int + 1, categories.deep_view());
            }
            return Some(owned("duplicate status name"));
        }
        if categories.len() > 0 && !contains_str(categories, &s.category) {
            let mut m = owned("status ");
            quote_append(&mut m, &s.key);
            m.append(" references undefined category ");
            quote_append(&mut m, &s.category);
            proof {
                assert(m@ =~= quoted("status "@, s.key@, " references undefined category "@) + seq!['\''] + s.category@ + seq!['\'']);
                lemma_first_status_issue_fixed(st, k as int + 1, categories.deep_view());
            }
            return Some(m);
        }
        push_message(&mut keys, s.key.clone());
        push_message(&mut names, s.name.clone());
        assert(keys.deep_view() =~= status_keys(st.subrange(0, k + 1)));
        assert(names.deep_view() =~= status_names(st.subrange(0, k + 1)));
        k += 1;
    }
    None
}

proof fn lemma_first_status_issue_fixed(st: Seq<StatusDefinition>, k: int, categories: Seq<Seq<char>>)
    requires
        0 < k <= st.len(),
        first_status_issue(st, k, categories) is Some,
    ensures
        first_status_issue(st, st.len() as int, categories) == first_status_issue(st, k, categories),
    decreases st.len() - k,
{
    if k < st.len() {
        lemma_first_status_issue_fixed(st, k + 1, categories);
    }
}

fn undefined_status_message(workflow: &str, status: &str) -> (m: String)
    ensures
        m@ == quoted("workflow "@, workflow@, " references undefined status "@) + seq!['\''] + status@ + seq!['\''],
{
    let mut m = owned("workflow ");
    quote_append(&mut m, workflow);
    m.append(" references undefined status ");
    quote_append(&mut m, status);
    assert(m@ =~= quoted("workflow "@, workflow@, " references undefined status "@) + seq!['\''] + status@ + seq!['\'']);
    m
}

fn undefined_status_list(workflows: &Vec<(String, Vec<StatusTransitions>)>, keys: &Vec<String>) -> (r: Vec<String>)
    ensures
        r.deep_view() == undefined_statuses(workflows@, keys.deep_view()),
{
    let ghost kv = keys.deep_view();
    let mut out: Vec<String> = Vec::new();
    let mut w: usize = 0;
    while w < workflows.len()
        invariant
            w <= workflows@.len(),
            kv == keys.deep_view(),
            out.deep_view() == undefined_statuses(workflows@.subrange(0, w as int), kv),
        decreases workflows@.len() - w,
    {
        let (name, entries) = &workflows[w];
        assert(workflows@.subrange(0, w + 1).drop_last() =~= workflows@.subrange(0, w as int));
        let ghost before = out.deep_view();
        let mut e: usize = 0;
        assert(entries@.subrange(0, 0) =~= Seq::<StatusTransitions>::empty());
        while e < entries.len()
            invariant
                e <= entries@.len(),
                kv == keys.deep_view(),
                out.deep_view() == before + undefined_in_workflow(name@, entries@.subrange(0, e as int), kv),
            decreases entries@.len() - e,
        {
            let (from, targets) = &entries[e];
            assert(entries@.subrange(0, e + 1).drop_last() =~= entries@.subrange(0, e as int));
            let ghost mid = out.deep_view();
            if !contains_str(keys, from) {
                push_message(&mut out, undefined_status_message(name, from));
            }
            assert(out.deep_view() =~= mid + when(!kv.contains(from@), quoted("workflow "@, name@, " references undefined status "@) + seq!['\''] + from@ + seq!['\'']));
            let ghost mid2 = out.deep_view();
            let mut t: usize = 0;
            assert(targets.deep_view().subrange(0, 0) =~= Seq::<Seq<char>>::empty());
            while t < targets.len()
                invariant
                    t <= targets@.len(),
                    kv == keys.deep_view(),
                    out.deep_view() == mid2 + undefined_targets(name@, targets.deep_view().subrange(0, t as int), kv),
                decreases targets@.len() - t,
            {
                assert(targets.deep_view().subrange(0, t + 1).drop_last() =~= targets.deep_view().subrange(0, t as int));
                let ghost mid3 = out.deep_view();
                if !contains_str(keys, &targets[t]) {
                    push_message(&mut out, undefined_status_message(name, &targets[t]));
                }
                assert(out.deep_view() =~= mid2 + undefined_targets(name@, targets.deep_view().subrange(0, t + 1), kv));
                t += 1;
            }
            assert(targets.deep_view().subrange(0, targets@.len() as int) =~= targets.deep_view());
            assert(out.deep_view() =~= before + undefined_in_workflow(name@, entries@.subrange(0, e + 1), kv));
            e += 1;
        }
        assert(entries@.subrange(0, entries@.len() as int) =~= entries@);
        assert(out.deep_view() =~= undefined_statuses(workflows@.subrange(0, w + 1), kv));
        w += 1;
    }
    assert(workflows@.subrange(0, workflows@.len() as int) =~= workflows@);
    out
}

fn label_froms_list(v: &Vec<StatusTransitionLabels>) -> (r: Vec<String>)
    ensures
        r.deep_view() == label_froms(v@),
{
    let mut out: Vec<String> = Vec::new();
    let mut i: usize = 0;
    while i < v.len()
        invariant
            i <= v@.len(),
            out.deep_view() == label_froms(v@).subrange(0, i as int),
        decreases v@.len() - i,
    {
        push_message(&mut out, v[i].0.clone());
        assert(out.deep_view() =~= label_froms(v@).subrange(0, i + 1));
        i += 1;
    }
    assert(label_froms(v@).subrange(0, v@.len() as int) =~= label_froms(v@));
    out
}

fn labeled_targets_list(v: &Vec<(String, String)>) -> (r: Vec<String>)
    ensures
        r.deep_view() == labeled_targets(v@),
{
    let mut out: Vec<String> = Vec::new();
    let mut i: usize = 0;
    while i < v.len()
        invariant
            i <= v@.len(),
            out.deep_view() == labeled_targets(v@).subrange(0, i as int),
        decreases v@.len() - i,
    {
        push_message(&mut out, v[i].0.clone());
        assert(out.deep_view() =~= labeled_targets(v@).subrange(0, i + 1));
        i += 1;
    }
    assert(labeled_targets(v@).subrange(0, v@.len() as int) =~= labeled_targets(v@));
    out
}

fn workflow_froms_list(v: &Vec<StatusTransitions>) -> (r: Vec<String>)
    ensures
        r.deep_view() == workflow_froms(v@),
{
    let mut out: Vec<String> = Vec::new();
    let mut i: usize = 0;
    while i < v.len()
        invariant
            i <= v@.len(),
            out.deep_view() == workflow_froms(v@).subrange(0, i as int),
        decreases v@.len() - i,
    {
        push_message(&mut out, v[i].0.clone());
        assert(out.deep_view() =~= workflow_froms(v@).subrange(0, i + 1));
        i += 1;
    }
    assert(workflow_froms(v@).subrange(0, v@.len() as int) =~= workflow_froms(v@));
    out
}

fn label_workflows_list(v: &Vec<(String, Vec<StatusTransitionLabels>)>) -> (r: Vec<String>)
    ensures
        r.deep_view() == label_workflows(v@),
{
    let mut out: Vec<String> = Vec::new();
    let mut i: usize = 0;
    while i < v.len()
        invariant
            i <= v@.len(),
            out.deep_view() == label_workflows(v@).subrange(0, i as int),
        decreases v@.len() - i,
    {
        push_message(&mut out, v[i].0.clone());
        assert(out.deep_view() =~= label_workflows(v@).subrange(0, i + 1));
        i += 1;
    }
    assert(label_workflows(v@).subrange(0, v@.len() as int) =~= label_workflows(v@));
    out
}

fn transition_message(lead: &str, workflow: &str, from: &str, to: &str) -> (m: String)
    ensures
        m@ == lead@ + q(from@) + " -> "@ + q(to@) + " in workflow "@ + q(workflow@),
{
    let mut m = owned(lead);
    quote_append(&mut m, from);
    m.append(" -> ");
    quote_append(&mut m, to);
    m.append(" in workflow ");
    quote_append(&mut m, workflow);
    m
}

fn missing_transition_list(workflow: &str, from: &str, targets: &Vec<String>, labeled: &Vec<String>) -> (r: Vec<String>)
    ensures
        r.deep_view() == missing_transitions(workflow@, from@, targets.deep_view(), labeled.deep_view()),
{
    let ghost tv = targets.deep_view();
    let mut out: Vec<String> = Vec::new();
    let mut t: usize = 0;
    assert(tv.subrange(0, 0) =~= Seq::<Seq<char>>::empty());
    while t < targets.len()
        invariant
            t <= targets@.len(),
            tv == targets.deep_view(),
            out.deep_view() == missing_transitions(workflow@, from@, tv.subrange(0, t as int), labeled.deep_view()),
        decreases targets@.len() - t,
    {
        assert(tv.subrange(0, t + 1).drop_last() =~= tv.subrange(0, t as int));
        let ghost mid = out.deep_view();
        if !contains_str(labeled, &targets[t]) {
            push_message(&mut out, transition_message("transition_labels missing transition ", workflow, from, &targets[t]));
        }
        assert(out.deep_view() =~= missing_transitions(workflow@, from@, tv.subrange(0, t + 1), labeled.deep_view()));
        t += 1;
    }
    assert(tv.subrange(0, targets@.len() as int) =~= tv);
    out
}

fn invalid_transition_list(workflow: &str, from: &str, labeled: &Vec<String>, targets: &Vec<String>) -> (r: Vec<String>)
    ensures
        r.deep_view() == invalid_transitions(workflow@, from@, labeled.deep_view(), targets.deep_view()),
{
    let ghost lv = labeled.deep_view();
    let mut out: Vec<String> = Vec::new();
    let mut t: usize = 0;
    assert(lv.subrange(0, 0) =~= Seq::<Seq<char>>::empty());
    while t < labeled.len()
        invariant
            t <= labeled@.len(),
            lv == labeled.deep_view(),
            out.deep_view() == invalid_transitions(workflow@, from@, lv.subrange(0, t as int), targets.deep_view()),
        decreases labeled@.len() - t,
    {
        assert(lv.subrange(0, t + 1).drop_last() =~= lv.subrange(0, t as int));
        if !contains_str(targets, &labeled[t]) {
            push_message(
                &mut out,
                transition_message("transition_labels references invalid transition ", workflow, from, &labeled[t]),
            );
        }
        assert(out.deep_view() =~= invalid_transitions(workflow@, from@, lv.subrange(0, t + 1), targets.deep_view()));
        t += 1;
    }
    assert(lv.subrange(0, labeled@.len() as int) =~= lv);
    out
}

fn entry_label_list(workflow: &str, entry: &StatusTransitions, wl: &Vec<StatusTransitionLabels>) -> (r: Vec<String>)
    ensures
        r.deep_view() == entry_label_issues(workflow@, *entry, wl@),
{
    let froms = label_froms_list(wl);
    match position(&froms, &entry.0) {
        None => {
            let mut m = owned("transition_labels missing from-status ");
            quote_append(&mut m, &entry.0);
            m.append(" in workflow ");
            quote_append(&mut m, workflow);
            let mut out: Vec<String> = Vec::new();
            push_message(&mut out, m);
            assert(out.deep_view() =~= entry_label_issues(workflow@, *entry, wl@));
            out
        },
        Some(j) => {
            proof {
                lemma_index_in(froms.deep_view(), entry.0@);
            }
            let fl = labeled_targets_list(&wl[j].1);
            let mut out = missing_transition_list(workflow, &entry.0, &entry.1, &fl);
            let more = invalid_transition_list(workflow, &entry.0, &fl, &entry.1);
            append_messages(&mut out, more);
            out
        },
    }
}

fn entries_label_list(workflow: &str, entries: &Vec<StatusTransitions>, wl: &Vec<StatusTransitionLabels>) -> (r: Vec<String>)
    ensures
        r.deep_view() == entries_label_issues(workflow@, entries@, wl@),
{
    let mut out: Vec<String> = Vec::new();
    let mut e: usize = 0;
    assert(entries@.subrange(0, 0) =~= Seq::<StatusTransitions>::empty());
    while e < entries.len()
        invariant
            e <= entries@.len(),
            out.deep_view() == entries_label_issues(workflow@, entries@.subrange(0, e as int), wl@),
        decreases entries@.len() - e,
    {
        assert(entries@.subrange(0, e + 1).drop_last() =~= entries@.subrange(0, e as int));
        let more = entry_label_list(workflow, &entries[e], wl);
        append_messages(&mut out, more);
        e += 1;
    }
    assert(entries@.subrange(0, entries@.len() as int) =~= entries@);
    out
}

fn invalid_from_list(workflow: &str, labeled: &Vec<String>, froms: &Vec<String>) -> (r: Vec<String>)
    ensures
        r.deep_view() == invalid_froms(workflow@, labeled.deep_view(), froms.deep_view()),
{
    let ghost lv = labeled.deep_view();
    let mut out: Vec<String> = Vec::new();
    let mut t: usize = 0;
    assert(lv.subrange(0, 0) =~= Seq::<Seq<char>>::empty());
    while t < labeled.len()
        invariant
            t <= labeled@.len(),
            lv == labeled.deep_view(),
            out.deep_view() == invalid_froms(workflow@, lv.subrange(0, t as int), froms.deep_view()),
        decreases labeled@.len() - t,
    {
        assert(lv.subrange(0, t + 1).drop_last() =~= lv.subrange(0, t as int));
        if !contains_str(froms, &labeled[t]) {
            let mut m = owned("transition_labels references invalid from-status ");
            quote_append(&mut m, &labeled[t]);
            m.append(" in workflow ");
            quote_append(&mut m, workflow);
            push_message(&mut out, m);
        }
        assert(out.deep_view() =~= invalid_froms(workflow@, lv.subrange(0, t + 1), froms.deep_view()));
        t += 1;
    }
    assert(lv.subrange(0, labeled@.len() as int) =~= lv);
    out
}

fn label_issue_list(
    workflows: &Vec<(String, Vec<StatusTransitions>)>,
    labels: &Vec<(String, Vec<StatusTransitionLabels>)>,
) -> (r: Vec<String>)
    ensures
        r.deep_view() == label_issues(workflows@, labels@),
{
    let names = label_workflows_list(labels);
    let mut out: Vec<String> = Vec::new();
    let mut w: usize = 0;
    assert(workflows@.subrange(0, 0) =~= Seq::<(String, Vec<StatusTransitions>)>::empty());
    while w < workflows.len()
        invariant
            w <= workflows@.len(),
            names.deep_view() == label_workflows(labels@),
            out.deep_view() == label_issues(workflows@.subrange(0, w as int), labels@),
        decreases workflows@.len() - w,
    {
        let (name, entries) = &workflows[w];
        assert(workflows@.subrange(0, w + 1).drop_last() =~= workflows@.subrange(0, w as int));
        let ghost before = out.deep_view();
        match position(&names, name) {
            None => {
                let mut m = owned("transition_labels missing workflow ");
                quote_append(&mut m, name);
                push_message(&mut out, m);
            },
            Some(i) => {
                proof {
                    lemma_index_in(names.deep_view(), name@);
                }
                let wl = &labels[i].1;
                let part = entries_label_list(name, entries, wl);
                append_messages(&mut out, part);
                let lf = label_froms_list(wl);
                let wf = workflow_froms_list(entries);
                let more = invalid_from_list(name, &lf, &wf);
                append_messages(&mut out, more);
            },
        }
        assert(out.deep_view() =~= label_issues(workflows@.subrange(0, w + 1), labels@));
        w += 1;
    }
    assert(workflows@.subrange(0, workflows@.len() as int) =~= workflows@);
    out
}

fn priority_defined(c: &ProjectConfiguration) -> (r: bool)
    ensures
        r == c.priorities@.map_values(|e: (u8, crate::models::PriorityDefinition)| e.0).contains(c.default_priority),
{
    let ghost pv = c.priorities@.map_values(|e: (u8, crate::models::PriorityDefinition)| e.0);
    let mut i: usize = 0;
    while i < c.priorities.len()
        invariant
            i <= c.priorities@.len(),
            pv == c.priorities@.map_values(|e: (u8, crate::models::PriorityDefinition)| e.0),
            forall|k: int| 0 <= k < i ==> pv[k] != c.default_priority,
        decreases c.priorities@.len() - i,
    {
        if c.priorities[i].0 == c.default_priority {
            assert(pv[i as int] == c.default_priority);
            return true;
        }
        i += 1;
    }
    false
}

fn status_key_list(statuses: &Vec<StatusDefinition>) -> (r: Vec<String>)
    ensures
        r.deep_view() == status_keys(statuses@),
{
    let mut v: Vec<String> = Vec::new();
    let mut i: usize = 0;
    while i < statuses.len()
        invariant
            i <= statuses@.len(),
            v.deep_view() == status_keys(statuses@).subrange(0, i as int),
        decreases statuses@.len() - i,
    {
        push_message(&mut v, statuses[i].key.clone());
        assert(v.deep_view() =~= status_keys(statuses@).subrange(0, i + 1));
        i += 1;
    }
    assert(status_keys(statuses@).subrange(0, statuses@.len() as int) =~= status_keys(statuses@));
    v
}

fn project_error_list(c: &ProjectConfiguration) -> (errors: Vec<String>)
    ensures
        errors.deep_view() == project_errors(*c),
{
    let vlabels = labels_of_virtual_projects(c);
    proof {
        reveal_strlit("ask");
    }
    let mut errors = messages_when(trim(&c.project_directory).unicode_len() == 0, "project_directory must not be empty");
    append_messages(
        &mut errors,
        messages_when(contains_str(&vlabels, &c.project_key), "virtual project label conflicts with project key"),
    );
    let unknown_target = match &c.new_issue_project {
        Some(t) => !equals(t, "ask") && !equals(t, &c.project_key) && !contains_str(&vlabels, t),
        None => false,
    };
    append_messages(&mut errors, messages_when(unknown_target, "new_issue_project references unknown project"));
    errors
}

fn binding_error_list(c: &ProjectConfiguration, wnames: &Vec<String>, has_default: bool) -> (errors: Vec<String>)
    requires
        wnames.deep_view() == workflow_names(*c),
        has_default == workflow_names(*c).contains("default"@),
    ensures
        errors.deep_view() == binding_errors(*c),
{
    let mut unbound: Vec<String> = Vec::new();
    if !has_default {
        let mut bindable = crate::text::copy_strings(&c.types);
        let mut rest = crate::text::copy_strings(&c.hierarchy);
        let ghost a = bindable.deep_view();
        let ghost b = rest.deep_view();
        bindable.append(&mut rest);
        assert(bindable.deep_view() =~= a + b);
        if let Some(t) = unbound_type(&bindable, wnames) {
            let mut m = owned("missing workflow binding for issue type ");
            quote_append(&mut m, &t);
            assert(m@ =~= quoted("missing workflow binding for issue type "@, t@, seq![]));
            push_message(&mut unbound, m);
        }
    }
    assert(unbound.deep_view() =~= binding_errors(*c));
    unbound
}

fn type_error_list(c: &ProjectConfiguration) -> (errors: Vec<String>)
    ensures
        errors.deep_view() == type_errors(*c),
{
    let wnames = names_of_workflows(c);
    let mut errors = messages_when(c.hierarchy.len() == 0, "hierarchy must not be empty");
    let fixed = !strings_equal(&c.hierarchy, &crate::config::default_hierarchy_list()) && !strings_equal(
        &c.hierarchy,
        &alternate_hierarchy_list(),
    );
    append_messages(&mut errors, messages_when(fixed, "hierarchy is fixed"));
    let mut all_types = crate::text::copy_strings(&c.hierarchy);
    let mut more_types = crate::text::copy_strings(&c.types);
    let ghost ht = all_types.deep_view();
    let ghost tt = more_types.deep_view();
    all_types.append(&mut more_types);
    assert(all_types.deep_view() =~= ht + tt);
    append_messages(&mut errors, messages_when(has_duplicate(&all_types), "duplicate type name"));
    proof {
        reveal_strlit("default");
    }
    let has_default = contains_str(&wnames, "default");
    append_messages(&mut errors, messages_when(!has_default, "default workflow is required"));
    append_messages(&mut errors, binding_error_list(c, &wnames, has_default));
    errors
}

fn status_error_list(c: &ProjectConfiguration) -> (errors: Vec<String>)
    ensures
        errors.deep_view() == status_errors(*c),
{
    let cat_names = category_name_list(&c.categories);
    let cats = categories_before_repeat(&cat_names);
    let mut problem: Vec<String> = Vec::new();
    if let Some(m) = status_problem(&c.statuses, &cats) {
        push_message(&mut problem, m);
    }
    assert(problem.deep_view() =~= status_errors(*c));
    problem
}

fn table_error_list(c: &ProjectConfiguration) -> (errors: Vec<String>)
    ensures
        errors.deep_view() == table_errors(*c),
{
    let mut errors = messages_when(c.transition_labels.len() == 0, "transition_labels must not be empty");
    append_messages(&mut errors, messages_when(!priority_defined(c), "default priority must be in priorities map"));
    append_messages(&mut errors, messages_when(c.categories.len() == 0, "categories must not be empty"));
    let cat_names = category_name_list(&c.categories);
    append_messages(&mut errors, messages_when(has_duplicate(&cat_names), "duplicate category name"));
    append_messages(&mut errors, messages_when(c.statuses.len() == 0, "statuses must not be empty"));
    append_messages(&mut errors, status_error_list(c));
    errors
}

fn reference_error_list(c: &ProjectConfiguration) -> (errors: Vec<String>)
    ensures
        errors.deep_view() == reference_errors(*c),
{
    let keys = status_key_list(&c.statuses);
    let mut errors: Vec<String> = Vec::new();
    if !contains_str(&keys, &c.initial_status) {
        let mut m = owned("initial_status ");
        quote_append(&mut m, &c.initial_status);
        m.append(" must exist in statuses");
        assert(m@ =~= quoted("initial_status "@, c.initial_status@, " must exist in statuses"@));
        push_message(&mut errors, m);
    }
    assert(errors.deep_view() =~= when(!status_keys(c.statuses@).contains(c.initial_status@), quoted("initial_status "@, c.initial_status@, " must exist in statuses"@)));
    append_messages(&mut errors, undefined_status_list(&c.workflows, &keys));
    append_messages(&mut errors, label_issue_list(&c.workflows, &c.transition_labels));
    errors
}

/// Validate configuration rules beyond schema validation: the list of
/// problems, in the order the rules are checked (empty when the
/// configuration is valid).
pub fn validate_project_configuration(configuration: &ProjectConfiguration) -> (errors: Vec<String>)
    ensures
        errors.deep_view() == configuration_errors(*configuration),
{
    let mut errors = project_error_list(configuration);
    append_messages(&mut errors, type_error_list(configuration));
    append_messages(&mut errors, table_error_list(configuration));
    append_messages(&mut errors, reference_error_list(configuration));
    errors
}

/// The place of the first entry of a mapping with the key `k`.
pub open spec fn key_index(es: Seq<(String, JsonValue)>, k: Seq<char>) -> Option<int>
    decreases es.len(),
{
    if es.len() == 0 {
        None
    } else if es[0].0@ == k {
        Some(0)
    } else {
        match key_index(es.drop_first(), k) {
            Some(i) => Some(i + 1),
            None => None,
        }
    }
}

proof fn lemma_key_index_at(es: Seq<(String, JsonValue)>, j: int, k: Seq<char>)
    requires
        0 <= j < es.len(),
        es[j].0@ == k,
        forall|i: int| 0 <= i < j ==> (#[trigger] es[i]).0@ != k,
    ensures
        key_index(es, k) == Some(j),
    decreases j,
{
    if j > 0 {
        assert forall|i: int| 0 <= i < j - 1 implies (#[trigger] es.drop_first()[i]).0@ != k by {
            assert(es.drop_first()[i] == es[i + 1]);
        }
        lemma_key_index_at(es.drop_first(), j - 1, k);
    }
}

proof fn lemma_key_index_absent(es: Seq<(String, JsonValue)>, k: Seq<char>)
    requires
        forall|i: int| 0 <= i < es.len() ==> (#[trigger] es[i]).0@ != k,
    ensures
        key_index(es, k) is None,
    decreases es.len(),
{
    if es.len() > 0 {
        assert forall|i: int| 0 <= i < es.drop_first().len() implies (#[trigger] es.drop_first()[i]).0@ != k by {
            assert(es.drop_first()[i] == es[i + 1]);
        }
        lemma_key_index_absent(es.drop_first(), k);
    }
}

proof fn lemma_key_index_some(es: Seq<(String, JsonValue)>, k: Seq<char>)
    ensures
        (key_index(es, k) is Some) == (exists|i: int| 0 <= i < es.len() && (#[trigger] es[i]).0@ == k),
        key_index(es, k) matches Some(j) ==> 0 <= j < es.len() && es[j].0@ == k,
    decreases es.len(),
{
    if es.len() > 0 {
        lemma_key_index_some(es.drop_first(), k);
        if es[0].0@ != k {
            if exists|i: int| 0 <= i < es.len() && (#[trigger] es[i]).0@ == k {
                let i = choose|i: int| 0 <= i < es.len() && (#[trigger] es[i]).0@ == k;
                assert(es.drop_first()[i - 1] == es[i]);
            }
            if exists|i: int| 0 <= i < es.drop_first().len() && (#[trigger] es.drop_first()[i]).0@ == k {
                let i = choose|i: int| 0 <= i < es.drop_first().len() && (#[trigger] es.drop_first()[i]).0@ == k;
                assert(es[i + 1] == es.drop_first()[i]);
            }
        }
    }
}

/// A mapping with an entry inserted: the value of the entry with the same
/// key replaced in place where there is one, else the entry added last.
pub open spec fn map_insert(es: Seq<(String, JsonValue)>, e: (String, JsonValue)) -> Seq<(String, JsonValue)> {
    match key_index(es, e.0@) {
        Some(j) => es.update(j, (es[j].0, e.1)),
        None => es.push(e),
    }
}

/// A mapping with the entries of `more` inserted in order.
pub open spec fn map_insert_all(es: Seq<(String, JsonValue)>, more: Seq<(String, JsonValue)>) -> Seq<(String, JsonValue)>
    decreases more.len(),
{
    if more.len() == 0 {
        es
    } else {
        map_insert(map_insert_all(es, more.drop_last()), more.last())
    }
}

/// The place of the first entry with the key `key`.
fn find_key(es: &Vec<(String, JsonValue)>, key: &str) -> (r: Option<usize>)
    ensures
        match r {
            Some(j) => j < es@.len() && key_index(es@, key@) == Some(j as int),
            None => key_index(es@, key@) is None,
        },
{
    let mut j: usize = 0;
    while j < es.len()
        invariant
            j <= es@.len(),
            forall|i: int| 0 <= i < j ==> (#[trigger] es@[i]).0@ != key@,
        decreases es@.len() - j,
    {
        if equals(es[j].0.as_str(), key) {
            proof {
                lemma_key_index_at(es@, j as int, key@);
            }
            return Some(j);
        }
        j += 1;
    }
    proof {
        lemma_key_index_absent(es@, key@);
    }
    None
}

/// Insert an entry into a mapping, replacing the value of the entry with
/// the same key in place.
fn mapping_insert(es: &mut Vec<(String, JsonValue)>, e: (String, JsonValue))
    ensures
        final(es)@ == map_insert(old(es)@, e),
{
    let ghost before = es@;
    match find_key(es, e.0.as_str()) {
        Some(j) => {
            let (k, _old) = es.remove(j);
            let (_, value) = e;
            es.insert(j, (k, value));
            assert(es@ =~= before.update(j as int, (before[j as int].0, e.1)));
        },
        None => {
            es.push(e);
        },
    }
}

/// Insert the entries of `more` into a mapping, in order.
fn mapping_insert_all(es: &mut Vec<(String, JsonValue)>, more: Vec<(String, JsonValue)>)
    ensures
        final(es)@ == map_insert_all(old(es)@, more@),
{
    let ghost start = es@;
    let ghost all = more@;
    let mut rest = more;
    let n = rest.len();
    let mut i: usize = 0;
    assert(all.take(0) =~= Seq::<(String, JsonValue)>::empty());
    while i < n
        invariant
            n == all.len(),
            i <= n,
            rest@ == all.subrange(i as int, n as int),
            es@ == map_insert_all(start, all.take(i as int)),
        decreases n - i,
    {
        let e = rest.remove(0);
        assert(rest@ =~= all.subrange(i + 1, n as int));
        assert(all.take(i + 1).drop_last() =~= all.take(i as int));
        mapping_insert(es, e);
        i += 1;
    }
    assert(all.take(n as int) =~= all);
}

/// The configuration file's mapping laid over the defaults: each of its
/// entries inserted into the default mapping. An empty file (`Null`) gives
/// the defaults; anything but a mapping is refused.
pub fn merge_with_defaults(defaults: Vec<(String, JsonValue)>, value: JsonValue) -> (r: Result<
    Vec<(String, JsonValue)>,
    KanbusError,
>)
    ensures
        match value {
            JsonValue::Null => r == Ok::<Vec<(String, JsonValue)>, KanbusError>(defaults),
            JsonValue::Object(entries) => r matches Ok(m) && m@ == map_insert_all(defaults@, entries@),
            _ => r matches Err(e) && e is Configuration && e->Configuration_0@ == "configuration must be a mapping"@,
        },
{
    match value {
        JsonValue::Null => Ok(defaults),
        JsonValue::Object(entries) => {
            let mut merged = defaults;
            mapping_insert_all(&mut merged, entries);
            Ok(merged)
        },
        _ => Err(KanbusError::Configuration(owned("configuration must be a mapping"))),
    }
}

/// One override applied to a mapping: a mapping given for
/// "virtual_projects" is merged into an existing "virtual_projects"
/// mapping, entry by entry; any other entry is inserted.
pub open spec fn override_step(before: Seq<(String, JsonValue)>, e: (String, JsonValue), after: Seq<(String, JsonValue)>) -> bool {
    let merges = e.0@ == "virtual_projects"@ && e.1 is Object && (key_index(before, e.0@) matches Some(j)
        && before[j].1 is Object);
    if merges {
        let j = key_index(before, e.0@)->0;
        &&& after.len() == before.len()
        &&& after[j].0 == before[j].0
        &&& after[j].1 matches JsonValue::Object(w) && w@ == map_insert_all(before[j].1->Object_0@, e.1->Object_0@)
        &&& forall|i: int| 0 <= i < before.len() && i != j ==> after[i] == before[i]
    } else {
        after == map_insert(before, e)
    }
}

/// Whether `result` is `es` with the overrides applied in order.
pub open spec fn overrides_applied(es: Seq<(String, JsonValue)>, ovs: Seq<(String, JsonValue)>, result: Seq<(String, JsonValue)>) -> bool
    decreases ovs.len(),
{
    if ovs.len() == 0 {
        result == es
    } else {
        exists|mid: Seq<(String, JsonValue)>|
            overrides_applied(es, ovs.drop_last(), mid) && #[trigger] override_step(mid, ovs.last(), result)
    }
}

fn apply_override(es: &mut Vec<(String, JsonValue)>, e: (String, JsonValue))
    ensures
        override_step(old(es)@, e, final(es)@),
{
    let ghost before = es@;
    let ghost entry = e;
    if equals(e.0.as_str(), "virtual_projects") {
        if let JsonValue::Object(_) = &e.1 {
            if let Some(j) = find_key(es, e.0.as_str()) {
                let (k, current) = es.remove(j);
                match current {
                    JsonValue::Object(existing) => {
                        let (_, additions) = e;
                        let additions = match additions {
                            JsonValue::Object(a) => a,
                            _ => Vec::new(),
                        };
                        let mut merged = existing;
                        mapping_insert_all(&mut merged, additions);
                        es.insert(j, (k, JsonValue::Object(merged)));
                        assert forall|i: int| 0 <= i < before.len() && i != j implies es@[i] == before[i] by {
                            if i < j {
                            } else {
                            }
                        }
                        return;
                    },
                    other => {
                        es.insert(j, (k, other));
                        assert(es@ =~= before);
                    },
                }
            }
        }
    }
    mapping_insert(es, e);
}

/// The override file's entries applied to the configuration mapping, in
/// order.
pub fn apply_overrides(value: Vec<(String, JsonValue)>, overrides: Vec<(String, JsonValue)>) -> (r: Vec<(String, JsonValue)>)
    ensures
        overrides_applied(value@, overrides@, r@),
{
    let ghost start = value@;
    let ghost all = overrides@;
    let mut es = value;
    let mut rest = overrides;
    let n = rest.len();
    let mut i: usize = 0;
    assert(all.take(0) =~= Seq::<(String, JsonValue)>::empty());
    while i < n
        invariant
            n == all.len(),
            i <= n,
            rest@ == all.subrange(i as int, n as int),
            overrides_applied(start, all.take(i as int), es@),
        decreases n - i,
    {
        let e = rest.remove(0);
        assert(rest@ =~= all.subrange(i + 1, n as int));
        let ghost mid = es@;
        apply_override(&mut es, e);
        assert(all.take(i + 1).drop_last() =~= all.take(i as int));
        assert(all.take(i + 1).last() == e);
        assert(override_step(mid, all.take(i + 1).last(), es@));
        i += 1;
    }
    assert(all.take(n as int) =~= all);
    es
}

/// Refuse a configuration that still has the replaced "external_projects".
pub fn reject_legacy_fields(mapping: &Vec<(String, JsonValue)>) -> (r: Result<(), KanbusError>)
    ensures
        key_index(mapping@, "external_projects"@) is Some ==> (r matches Err(e) && e is Configuration
            && e->Configuration_0@ == "external_projects has been replaced by virtual_projects"@),
        key_index(mapping@, "external_projects"@) is None ==> r is Ok,
{
    if find_key(mapping, "external_projects").is_some() {
        return Err(KanbusError::Configuration(owned("external_projects has been replaced by virtual_projects")));
    }
    Ok(())
}

/// Turn a "virtual_projects" list into an empty mapping.
pub fn normalize_virtual_projects(mapping: &mut Vec<(String, JsonValue)>)
    ensures
        match key_index(old(mapping)@, "virtual_projects"@) {
            Some(j) => if old(mapping)@[j].1 is Array {
                &&& final(mapping)@.len() == old(mapping)@.len()
                &&& final(mapping)@[j].0 == old(mapping)@[j].0
                &&& final(mapping)@[j].1 matches JsonValue::Object(w) && w@.len() == 0
                &&& forall|i: int| 0 <= i < old(mapping)@.len() && i != j ==> final(mapping)@[i] == old(mapping)@[i]
            } else {
                final(mapping)@ == old(mapping)@
            },
            None => final(mapping)@ == old(mapping)@,
        },
{
    let ghost before = mapping@;
    if let Some(j) = find_key(mapping, "virtual_projects") {
        let (k, current) = mapping.remove(j);
        match current {
            JsonValue::Array(_) => {
                mapping.insert(j, (k, JsonValue::Object(Vec::new())));
                assert forall|i: int| 0 <= i < before.len() && i != j implies mapping@[i] == before[i] by {
                    if i < j {
                    } else {
                    }
                }
            },
            other => {
                mapping.insert(j, (k, other));
                assert(mapping@ =~= before);
            },
        }
    }
}

/// The message for a configuration that does not deserialize: unknown
/// fields get one message of their own.
pub fn map_configuration_error(message: &str) -> (r: String)
    ensures
        r@ == if has_substring(message@, "unknown field"@) {
            "unknown configuration fields"@
        } else {
            message@
        },
{
    if contains_text(message, "unknown field") {
        return owned("unknown configuration fields");
    }
    owned(message)
}

/// A value without one pair of matching double or single quotes around it.
pub open spec fn unquoted(v: Seq<char>) -> Seq<char> {
    if v.len() >= 2 && ((v[0] == '"' && v.last() == '"') || (v[0] == '\'' && v.last() == '\'')) {
        v.subrange(1, v.len() - 1)
    } else {
        v
    }
}

/// The variable that a line of a `.env` file sets, if any: blank lines and
/// comments set none; an `export ` prefix is dropped; the name before the
/// first '=' and the value after it are trimmed, and the value unquoted.
pub open spec fn dotenv_entry(line: Seq<char>) -> Option<(Seq<char>, Seq<char>)> {
    let t = trim_ws(line);
    if t.len() == 0 || t[0] == '#' {
        None
    } else {
        let s = if has_prefix(t, "export "@) {
            trim_start_ws(t.subrange(7, t.len() as int))
        } else {
            t
        };
        let p = first_pos(s, '=');
        if p < 0 {
            None
        } else {
            let key = trim_ws(s.subrange(0, p));
            if key.len() == 0 {
                None
            } else {
                Some((key, unquoted(trim_ws(s.subrange(p + 1, s.len() as int)))))
            }
        }
    }
}

/// Parse one line of a `.env` file into the variable it sets.
pub fn parse_dotenv_line(line: &str) -> (r: Option<(String, String)>)
    ensures
        match dotenv_entry(line@) {
            Some((k, v)) => r matches Some(e) && e.0@ == k && e.1@ == v,
            None => r is None,
        },
{
    let t = trim(line);
    let n = t.unicode_len();
    if n == 0 || t.get_char(0) == '#' {
        return None;
    }
    let s = if starts_with(t.as_str(), "export ") {
        proof {
            reveal_strlit("export ");
        }
        trim_start(t.as_str().substring_char(7, n))
    } else {
        t
    };
    let p = match find_char(s.as_str(), '=') {
        Some(p) => p,
        None => return None,
    };
    proof {
        lemma_first_pos(s@, '=');
    }
    let m = s.unicode_len();
    let key = trim(s.as_str().substring_char(0, p));
    if key.unicode_len() == 0 {
        return None;
    }
    let v = trim(s.as_str().substring_char(p + 1, m));
    let k = v.unicode_len();
    let value = if k >= 2 && ((v.get_char(0) == '"' && v.get_char(k - 1) == '"') || (v.get_char(0) == '\''
        && v.get_char(k - 1) == '\'')) {
        substring(v.as_str(), 1, k - 1)
    } else {
        v
    };
    Some((key, value))
}

proof fn lemma_map_insert_keys(es: Seq<(String, JsonValue)>, e: (String, JsonValue), k: Seq<char>)
    ensures
        (key_index(map_insert(es, e), k) is Some) == (key_index(es, k) is Some || k == e.0@),
{
    lemma_key_index_some(es, k);
    lemma_key_index_some(es, e.0@);
    let r = map_insert(es, e);
    lemma_key_index_some(r, k);
    match key_index(es, e.0@) {
        Some(j) => {
            if exists|i: int| 0 <= i < es.len() && (#[trigger] es[i]).0@ == k {
                let i = choose|i: int| 0 <= i < es.len() && (#[trigger] es[i]).0@ == k;
                assert(r[i].0@ == k);
            }
            if exists|i: int| 0 <= i < r.len() && (#[trigger] r[i]).0@ == k {
                let i = choose|i: int| 0 <= i < r.len() && (#[trigger] r[i]).0@ == k;
                assert(es[i].0@ == k);
            }
            if k == e.0@ {
                assert(es[j].0@ == k);
            }
        },
        None => {
            if exists|i: int| 0 <= i < es.len() && (#[trigger] es[i]).0@ == k {
                let i = choose|i: int| 0 <= i < es.len() && (#[trigger] es[i]).0@ == k;
                assert(r[i] == es[i]);
            }
            if exists|i: int| 0 <= i < r.len() && (#[trigger] r[i]).0@ == k {
                let i = choose|i: int| 0 <= i < r.len() && (#[trigger] r[i]).0@ == k;
                if i < es.len() {
                    assert(es[i] == r[i]);
                }
            }
            assert(r[es.len() as int] == e);
        },
    }
}

/// Inserting entries into a mapping keeps every key it had and adds the
/// keys of the inserted entries, and no others.
pub proof fn lemma_map_insert_all_keys(es: Seq<(String, JsonValue)>, more: Seq<(String, JsonValue)>, k: Seq<char>)
    ensures
        (key_index(map_insert_all(es, more), k) is Some) == (key_index(es, k) is Some || key_index(more, k) is Some),
    decreases more.len(),
{
    if more.len() > 0 {
        lemma_map_insert_all_keys(es, more.drop_last(), k);
        lemma_map_insert_keys(map_insert_all(es, more.drop_last()), more.last(), k);
        lemma_key_index_some(more, k);
        lemma_key_index_some(more.drop_last(), k);
        if exists|i: int| 0 <= i < more.len() && (#[trigger] more[i]).0@ == k {
            let i = choose|i: int| 0 <= i < more.len() && (#[trigger] more[i]).0@ == k;
            if i < more.len() - 1 {
                assert(more.drop_last()[i] == more[i]);
            }
        }
        if exists|i: int| 0 <= i < more.drop_last().len() && (#[trigger] more.drop_last()[i]).0@ == k {
            let i = choose|i: int| 0 <= i < more.drop_last().len() && (#[trigger] more.drop_last()[i]).0@ == k;
            assert(more[i] == more.drop_last()[i]);
        }
    }
}

/// An override of "virtual_projects" adds to the virtual projects already
/// configured rather than replacing them: afterwards the mapping names
/// exactly the projects it named before and those the override names.
pub proof fn lemma_virtual_projects_merge_additively(
    before: Seq<(String, JsonValue)>,
    e: (String, JsonValue),
    after: Seq<(String, JsonValue)>,
    k: Seq<char>,
)
    requires
        override_step(before, e, after),
        e.0@ == "virtual_projects"@,
        e.1 is Object,
        key_index(before, e.0@) matches Some(j) && before[j].1 is Object,
    ensures
        ({
            let j = key_index(before, e.0@)->0;
            &&& after[j].0@ == "virtual_projects"@
            &&& after[j].1 is Object
            &&& (key_index(after[j].1->Object_0@, k) is Some) == (key_index(before[j].1->Object_0@, k) is Some
                || key_index(e.1->Object_0@, k) is Some)
        }),
{
    let j = key_index(before, e.0@)->0;
    lemma_key_index_some(before, e.0@);
    lemma_map_insert_all_keys(before[j].1->Object_0@, e.1->Object_0@, k);
}

/// Read the configuration file's text: a blank text is an empty mapping;
/// otherwise the YAML value it holds, or a configuration error with the
/// parser's message (unknown fields get one message of their own).
pub fn load_configuration_value(contents: &str) -> (r: Result<JsonValue, KanbusError>)
    ensures
        trim_ws(contents@).len() == 0 ==> (r matches Ok(v) && v matches JsonValue::Object(es) && es@.len() == 0),
        trim_ws(contents@).len() > 0 ==> match yaml_text_value(contents@) {
            Ok(v) => r == Ok::<JsonValue, KanbusError>(v),
            Err(m) => r matches Err(e) && e is Configuration && e->Configuration_0@ == (if has_substring(
                m,
                "unknown field"@,
            ) {
                "unknown configuration fields"@
            } else {
                m
            }),
        },
{
    if trim(contents).unicode_len() == 0 {
        return Ok(JsonValue::Object(Vec::new()));
    }
    match yaml_text_value_of(contents) {
        Ok(v) => Ok(v),
        Err(m) => Err(KanbusError::Configuration(map_configuration_error(m.as_str()))),
    }
}

/// Read the override file's text: a blank text overrides nothing; otherwise
/// it must hold a YAML mapping, whose entries are the overrides.
pub fn override_configuration(contents: &str) -> (r: Result<Vec<(String, JsonValue)>, KanbusError>)
    ensures
        trim_ws(contents@).len() == 0 ==> (r matches Ok(es) && es@.len() == 0),
        trim_ws(contents@).len() > 0 ==> match yaml_text_value(contents@) {
            Ok(JsonValue::Object(es)) => r matches Ok(o) && o@ == es@,
            Ok(_) => r matches Err(e) && e is Configuration && e->Configuration_0@
                == "override configuration must be a mapping"@,
            Err(_) => r matches Err(e) && e is Configuration && e->Configuration_0@
                == "override configuration is invalid"@,
        },
{
    if trim(contents).unicode_len() == 0 {
        return Ok(Vec::new());
    }
    match yaml_text_value_of(contents) {
        Ok(JsonValue::Object(entries)) => Ok(entries),
        Ok(_) => Err(KanbusError::Configuration(owned("override configuration must be a mapping"))),
        Err(_) => Err(KanbusError::Configuration(owned("override configuration is invalid"))),
    }
}

} // verus!
