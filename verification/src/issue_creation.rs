//! Issue creation rules: types, short identifiers and new issue records.

use vstd::prelude::*;
use vstd::string::*;

use crate::error::KanbusError;
use crate::ids::{draws_fail, draws_give, generate_issue_identifier, is_generated_identifier, IssueIdentifierRequest};
use crate::issue_update::{
    failure_is, hierarchy_allowed, hierarchy_allows, hierarchy_error, issue_id_list, issue_type_of, lowercase,
    parent_resolution, priority_known, priority_values, type_of_issue, unicode_lower, UpdateFailure,
};
use crate::models::{opt_text_view, IssueData, ProjectConfiguration};
use crate::text::{
    contains_str, copy_strings, equals, find_char, first_pos, has_prefix, join3, lemma_first_pos, owned, starts_with, substring,
    trim, trim_ws, utf8_len, utf8_longer_than,
};

verus! {

/// What precedes the first '-' of `s` (all of `s` when it has none).
pub open spec fn before_dash(s: Seq<char>) -> Seq<char> {
    let p = first_pos(s, '-');
    if p >= 0 {
        s.subrange(0, p)
    } else {
        s
    }
}

/// What follows the first '-' of `s` (nothing when it has none).
pub open spec fn after_dash(s: Seq<char>) -> Seq<char> {
    let p = first_pos(s, '-');
    if p >= 0 {
        s.subrange(p + 1, s.len() as int)
    } else {
        seq![]
    }
}

/// A short identifier `{project_key}-{prefix}` names a full identifier
/// `{project_key}-{suffix}` when the prefix is one to six bytes long and the
/// suffix begins with it.
pub open spec fn short_id_rule(candidate: Seq<char>, project_key: Seq<char>, full_id: Seq<char>) -> bool {
    &&& has_prefix(candidate, project_key)
    &&& before_dash(candidate) == project_key
    &&& after_dash(candidate).len() > 0
    &&& utf8_len(after_dash(candidate)) <= 6
    &&& before_dash(full_id) == project_key
    &&& has_prefix(after_dash(full_id), after_dash(candidate))
}

/// The two parts of `s` around its first '-'.
fn split_dash(s: &str) -> (r: (String, String))
    ensures
        r.0@ == before_dash(s@),
        r.1@ == after_dash(s@),
{
    proof {
        lemma_first_pos(s@, '-');
    }
    let n = s.unicode_len();
    match find_char(s, '-') {
        Some(p) => (substring(s, 0, p), substring(s, p + 1, n)),
        None => (owned(s), String::new()),
    }
}

/// Determine whether a short identifier matches a full identifier.
pub fn short_id_matches(candidate: &str, project_key: &str, full_id: &str) -> (r: bool)
    ensures
        r == short_id_rule(candidate@, project_key@, full_id@),
{
    if !starts_with(candidate, project_key) {
        return false;
    }
    let (prefix_key, prefix) = split_dash(candidate);
    if !equals(&prefix_key, project_key) {
        return false;
    }
    if prefix.unicode_len() == 0 || utf8_longer_than(&prefix, 6) {
        return false;
    }
    let (full_key, full_suffix) = split_dash(full_id);
    if !equals(&full_key, project_key) {
        return false;
    }
    starts_with(&full_suffix, &prefix)
}

/// The full identifiers of a list that a short identifier names, in order.
pub open spec fn short_id_candidates(
    identifiers: Seq<Seq<char>>,
    project_key: Seq<char>,
    candidate: Seq<char>,
) -> Seq<Seq<char>>
    decreases identifiers.len(),
{
    if identifiers.len() == 0 {
        seq![]
    } else {
        let rest = short_id_candidates(identifiers.drop_last(), project_key, candidate);
        if short_id_rule(candidate, project_key, identifiers.last()) {
            rest.push(identifiers.last())
        } else {
            rest
        }
    }
}

/// Resolve an issue identifier from a user-provided value.
///
/// Accepts a full identifier (`exact_exists`: an issue file of that name
/// exists) or a unique short identifier among `identifiers`, the
/// identifiers of the issues directory (or the error that listing gave).
pub fn resolve_issue_identifier(
    project_key: &str,
    candidate: &str,
    exact_exists: bool,
    identifiers: Result<Vec<String>, KanbusError>,
) -> (r: Result<String, KanbusError>)
    ensures
        exact_exists ==> (r matches Ok(id) && id@ == candidate@),
        !exact_exists && identifiers is Err ==> r == Err::<String, KanbusError>(identifiers->Err_0),
        !exact_exists && identifiers is Ok ==> ({
            let found = short_id_candidates(identifiers->Ok_0.deep_view(), project_key@, candidate@);
            if found.len() == 1 {
                r matches Ok(id) && id@ == found[0]
            } else if found.len() == 0 {
                r matches Err(e) && e is IssueOperation && e->IssueOperation_0@ == "not found"@
            } else {
                r matches Err(e) && e is IssueOperation && e->IssueOperation_0@ == "ambiguous short id"@
            }
        }),
{
    if exact_exists {
        return Ok(owned(candidate));
    }
    let identifiers = match identifiers {
        Ok(ids) => ids,
        Err(e) => return Err(e),
    };
    let mut matches: Vec<String> = Vec::new();
    let mut i: usize = 0;
    while i < identifiers.len()
        invariant
            i <= identifiers@.len(),
            matches.deep_view() == short_id_candidates(
                identifiers.deep_view().subrange(0, i as int),
                project_key@,
                candidate@,
            ),
        decreases identifiers@.len() - i,
    {
        assert(identifiers.deep_view().subrange(0, i + 1).drop_last() =~= identifiers.deep_view().subrange(0, i as int));
        let ghost before = matches.deep_view();
        if short_id_matches(candidate, project_key, &identifiers[i]) {
            matches.push(identifiers[i].clone());
            assert(matches.deep_view() =~= before.push(identifiers[i as int]@));
        }
        i += 1;
    }
    assert(identifiers.deep_view().subrange(0, identifiers@.len() as int) =~= identifiers.deep_view());
    if matches.len() == 1 {
        Ok(matches[0].clone())
    } else if matches.len() == 0 {
        let m = owned("not found");
        proof {
            reveal_strlit("not found");
        }
        Err(KanbusError::IssueOperation(m))
    } else {
        let m = owned("ambiguous short id");
        proof {
            reveal_strlit("ambiguous short id");
        }
        Err(KanbusError::IssueOperation(m))
    }
}

/// A type is known when it is a level of the hierarchy or another type.
pub open spec fn known_issue_type(configuration: ProjectConfiguration, issue_type: Seq<char>) -> bool {
    configuration.hierarchy.deep_view().contains(issue_type) || configuration.types.deep_view().contains(issue_type)
}

/// Reject issue types that the configuration does not know.
pub fn validate_issue_type(configuration: &ProjectConfiguration, issue_type: &str) -> (r: Result<(), KanbusError>)
    ensures
        r is Ok <==> known_issue_type(*configuration, issue_type@),
        r matches Err(e) ==> e is IssueOperation && e->IssueOperation_0@ == "unknown issue type"@,
{
    if !contains_str(&configuration.hierarchy, issue_type) && !contains_str(&configuration.types, issue_type) {
        let m = owned("unknown issue type");
        proof {
            reveal_strlit("unknown issue type");
        }
        return Err(KanbusError::IssueOperation(m));
    }
    Ok(())
}

/// Request payload for issue creation.
pub struct IssueCreationRequest {
    pub root: String,
    pub title: String,
    pub issue_type: Option<String>,
    pub priority: Option<u8>,
    pub assignee: Option<String>,
    pub parent: Option<String>,
    pub labels: Vec<String>,
    pub description: Option<String>,
    pub local: bool,
    pub validate: bool,
}

/// Result payload for issue creation.
pub struct IssueCreationResult {
    pub issue: IssueData,
    pub configuration: ProjectConfiguration,
}

/// The identifier of the first issue whose title matches `title`, trimmed
/// and lowercased.
pub open spec fn same_title_of(issues: Seq<IssueData>, title: Seq<char>) -> Option<Seq<char>>
    decreases issues.len(),
{
    if issues.len() == 0 {
        None
    } else if unicode_lower(trim_ws(issues[0].title@)) == unicode_lower(trim_ws(title)) {
        Some(issues[0].identifier@)
    } else {
        same_title_of(issues.drop_first(), title)
    }
}

fn find_same_title(issues: &Vec<IssueData>, title: &str) -> (r: Option<String>)
    ensures
        opt_text_view(r) == same_title_of(issues@, title@),
{
    let normalized = lowercase(&trim(title));
    let mut i: usize = 0;
    assert(issues@.subrange(0, issues@.len() as int) =~= issues@);
    while i < issues.len()
        invariant
            i <= issues@.len(),
            normalized@ == unicode_lower(trim_ws(title@)),
            same_title_of(issues@, title@) == same_title_of(issues@.subrange(i as int, issues@.len() as int), title@),
        decreases issues@.len() - i,
    {
        let ghost rest = issues@.subrange(i as int, issues@.len() as int);
        assert(rest[0] == issues@[i as int]);
        assert(rest.drop_first() =~= issues@.subrange(i + 1, issues@.len() as int));
        if equals(&lowercase(&trim(&issues[i].title)), &normalized) {
            return Some(issues[i].identifier.clone());
        }
        i += 1;
    }
    None
}

/// The type of a new issue: the requested one, or "task".
pub open spec fn creation_type(req: IssueCreationRequest) -> Seq<char> {
    match req.issue_type {
        Some(t) => t@,
        None => "task"@,
    }
}

/// The priority of a new issue: the requested one, or the default.
pub open spec fn creation_priority(req: IssueCreationRequest, c: ProjectConfiguration) -> u8 {
    match req.priority {
        Some(p) => p,
        None => c.default_priority,
    }
}

/// The parent of a new issue (resolved from a full or short identifier), or
/// why it cannot be resolved.
pub open spec fn creation_parent(
    req: IssueCreationRequest,
    c: ProjectConfiguration,
    issues: Result<Vec<IssueData>, KanbusError>,
) -> Result<Option<Seq<char>>, UpdateFailure> {
    match req.parent {
        None => Ok(None),
        Some(candidate) => match issues {
            Err(e) => Err(UpdateFailure::Passed(e)),
            Ok(v) => match parent_resolution(v@, c.project_key@, candidate@) {
                Err(m) => Err(UpdateFailure::Issue(m)),
                Ok(pid) => Ok(Some(pid)),
            },
        },
    }
}

/// Why a creation fails before the status check, if it does: the checks in
/// the order they run.
pub open spec fn creation_failure(
    req: IssueCreationRequest,
    c: ProjectConfiguration,
    issues: Result<Vec<IssueData>, KanbusError>,
) -> Option<UpdateFailure> {
    let t = creation_type(req);
    match creation_parent(req, c, issues) {
        Err(f) => Some(f),
        Ok(parent) => if !req.validate {
            None
        } else if !known_issue_type(c, t) {
            Some(UpdateFailure::Issue("unknown issue type"@))
        } else if !priority_values(c).contains(creation_priority(req, c)) {
            Some(UpdateFailure::Issue("invalid priority"@))
        } else {
            let parent_check = match parent {
                Some(pid) => match issue_type_of(issues->Ok_0@, pid) {
                    None => Some(UpdateFailure::Issue("not found"@)),
                    Some(pt) => if hierarchy_allows(c, pt, t) {
                        None
                    } else {
                        Some(UpdateFailure::Hierarchy(pt, t))
                    },
                },
                None => None,
            };
            if parent_check is Some {
                parent_check
            } else {
                match issues {
                    Err(e) => Some(UpdateFailure::Passed(e)),
                    Ok(v) => match same_title_of(v@, req.title@) {
                        Some(d) => Some(
                            UpdateFailure::Issue("duplicate title: \""@ + req.title@ + "\" already exists as "@ + d),
                        ),
                        None => None,
                    },
                }
            }
        },
    }
}

/// Whether `issue` is the new issue the request describes, with the
/// resolved parent and the creation time.
pub open spec fn is_new_issue(
    issue: IssueData,
    req: IssueCreationRequest,
    c: ProjectConfiguration,
    parent: Option<Seq<char>>,
    created_at: i64,
) -> bool {
    &&& issue.title@ == req.title@
    &&& issue.description@ == (match req.description {
        Some(d) => d@,
        None => seq![],
    })
    &&& issue.issue_type@ == creation_type(req)
    &&& issue.status@ == c.initial_status@
    &&& issue.priority == creation_priority(req, c) as i32
    &&& opt_text_view(issue.assignee) == (if req.assignee is Some {
        opt_text_view(req.assignee)
    } else {
        opt_text_view(c.assignee)
    })
    &&& issue.creator is None
    &&& opt_text_view(issue.parent) == parent
    &&& issue.labels.deep_view() == req.labels.deep_view()
    &&& issue.dependencies@.len() == 0
    &&& issue.comments@.len() == 0
    &&& issue.created_at == created_at
    &&& issue.updated_at == created_at
    &&& issue.closed_at is None
    &&& issue.agent is None
    &&& issue.right_now_summary is None
    &&& issue.right_now_updated_at is None
    &&& issue.custom@.len() == 0
}

fn copy_opt(s: &Option<String>) -> (r: Option<String>)
    ensures
        opt_text_view(r) == opt_text_view(*s),
{
    match s {
        Some(t) => Some(t.clone()),
        None => None,
    }
}

/// Build a new issue for the request. `configuration` is the project's
/// configuration (or the error loading it gave), `issues` the issues of the
/// directory the issue goes to (parents and duplicate titles are found
/// there), `existing_ids` every identifier in use, and `created_at` the
/// creation time. With validation on, `status_check` checks the initial
/// status against the workflow of the new issue's type. The issue is not
/// written anywhere.
pub fn create_issue<F: FnOnce(&ProjectConfiguration, &str, &str) -> Result<(), KanbusError>>(
    request: &IssueCreationRequest,
    configuration: Result<ProjectConfiguration, KanbusError>,
    issues: Result<Vec<IssueData>, KanbusError>,
    existing_ids: Result<Vec<String>, KanbusError>,
    created_at: i64,
    status_check: F,
) -> (r: Result<IssueCreationResult, KanbusError>)
    requires
        forall|c: &ProjectConfiguration, t: &str, st: &str| call_requires(status_check, (c, t, st)),
    ensures
        match configuration {
            Err(e) => r == Err::<IssueCreationResult, KanbusError>(e),
            Ok(c) => match creation_failure(*request, c, issues) {
                Some(f) => r matches Err(e) && failure_is(e, f),
                None => match r {
                    Ok(res) => {
                        &&& res.configuration == c
                        &&& is_new_issue(res.issue, *request, c, creation_parent(*request, c, issues)->Ok_0, created_at)
                        &&& existing_ids is Ok
                        &&& is_generated_identifier(res.issue.identifier@, c.project_key@)
                        &&& !existing_ids->Ok_0.deep_view().contains(res.issue.identifier@)
                        &&& exists|drawn: Seq<Seq<char>>|
                            #[trigger] draws_give(c.project_key@, existing_ids->Ok_0.deep_view(), drawn, res.issue.identifier@)
                        &&& request.validate ==> exists|t: &str, st: &str|
                            t@ == creation_type(*request) && st@ == c.initial_status@ && call_ensures(
                                status_check,
                                (&c, t, st),
                                Ok::<(), KanbusError>(()),
                            )
                    },
                    Err(e) => {
                        ||| (request.validate && exists|t: &str, st: &str|
                            t@ == creation_type(*request) && st@ == c.initial_status@ && call_ensures(
                                status_check,
                                (&c, t, st),
                                Err::<(), KanbusError>(e),
                            ))
                        ||| (existing_ids matches Err(x) && e == x)
                        ||| (existing_ids is Ok && e == KanbusError::IdGenerationFailed(e->IdGenerationFailed_0)
                            && e->IdGenerationFailed_0@ == "unable to generate unique id after 10 attempts"@
                            && exists|drawn: Seq<Seq<char>>|
                            #[trigger] draws_fail(c.project_key@, existing_ids->Ok_0.deep_view(), drawn))
                    },
                },
            },
        },
{
    let c = match configuration {
        Ok(c) => c,
        Err(e) => return Err(e),
    };
    let resolved_type: String = match &request.issue_type {
        Some(t) => t.clone(),
        None => {
            proof {
                reveal_strlit("task");
            }
            owned("task")
        },
    };
    let resolved_priority: u8 = match request.priority {
        Some(p) => p,
        None => c.default_priority,
    };
    let resolved_parent: Option<String> = match &request.parent {
        None => None,
        Some(candidate) => {
            let v = match &issues {
                Err(e) => return Err(e.duplicate()),
                Ok(v) => v,
            };
            let ids = issue_id_list(v);
            let exact = contains_str(&ids, candidate);
            match resolve_issue_identifier(&c.project_key, candidate, exact, Ok(ids)) {
                Ok(id) => Some(id),
                Err(e) => return Err(e),
            }
        },
    };
    if request.validate {
        if let Err(e) = validate_issue_type(&c, &resolved_type) {
            return Err(e);
        }
        if !priority_known(&c, resolved_priority) {
            let m = owned("invalid priority");
            proof {
                reveal_strlit("invalid priority");
            }
            return Err(KanbusError::IssueOperation(m));
        }
        if let Some(pid) = &resolved_parent {
            let v = match &issues {
                Ok(v) => v,
                Err(e) => return Err(e.duplicate()),
            };
            match type_of_issue(v, pid) {
                None => {
                    let m = owned("not found");
                    proof {
                        reveal_strlit("not found");
                    }
                    return Err(KanbusError::IssueOperation(m));
                },
                Some(pt) => {
                    if !hierarchy_allowed(&c, &pt, &resolved_type) {
                        return Err(hierarchy_error(&pt, &resolved_type));
                    }
                },
            }
        }
        let v = match &issues {
            Ok(v) => v,
            Err(e) => return Err(e.duplicate()),
        };
        if let Some(d) = find_same_title(v, &request.title) {
            let mut m = join3("duplicate title: \"", &request.title, "\" already exists as ");
            m.append(&d);
            proof {
                reveal_strlit("duplicate title: \"");
                reveal_strlit("\" already exists as ");
            }
            return Err(KanbusError::IssueOperation(m));
        }
        let t_str = resolved_type.as_str();
        let st_str = c.initial_status.as_str();
        let checked = status_check(&c, t_str, st_str);
        proof {
            assert(t_str@ == creation_type(*request) && st_str@ == c.initial_status@ && call_ensures(
                status_check,
                (&c, t_str, st_str),
                checked,
            ));
        }
        let ghost outcome = checked;
        if let Err(e) = checked {
            return Err(e);
        }
        assert(outcome is Ok);
        assert(outcome->Ok_0 == ());
        assert(outcome == Ok::<(), KanbusError>(()));
    }
    let ids = match existing_ids {
        Ok(ids) => ids,
        Err(e) => return Err(e),
    };
    let identifier_request = IssueIdentifierRequest {
        title: request.title.clone(),
        existing_ids: ids,
        prefix: c.project_key.clone(),
    };
    let identifier = match generate_issue_identifier(&identifier_request) {
        Ok(res) => res.identifier,
        Err(e) => return Err(e),
    };
    let assignee = if request.assignee.is_some() {
        copy_opt(&request.assignee)
    } else {
        copy_opt(&c.assignee)
    };
    let description = match &request.description {
        Some(d) => d.clone(),
        None => String::new(),
    };
    let issue = IssueData {
        identifier,
        title: request.title.clone(),
        description,
        issue_type: resolved_type,
        status: c.initial_status.clone(),
        priority: resolved_priority as i32,
        assignee,
        creator: None,
        parent: resolved_parent,
        labels: copy_strings(&request.labels),
        dependencies: Vec::new(),
        comments: Vec::new(),
        created_at,
        updated_at: created_at,
        closed_at: None,
        agent: None,
        right_now_summary: None,
        right_now_updated_at: None,
        custom: Vec::new(),
    };
    Ok(IssueCreationResult { issue, configuration: c })
}

} // verus!
