//! Choosing the projects that a listing covers.

use vstd::prelude::*;

use crate::config_loader::{first_unbound, unbound_type};
use crate::error::KanbusError;
use crate::text::{contains_str, owned, sort_distinct_strings, strictly_sorted};

verus! {

/// A project found under the repository, with its label.
pub struct LabeledProject {
    pub label: String,
    pub project_dir: String,
}

/// The labels of the projects, in order.
pub open spec fn project_labels(labeled: Seq<LabeledProject>) -> Seq<Seq<char>> {
    labeled.map_values(|p: LabeledProject| p.label@)
}

/// The directories of the projects whose label the filter names, in order.
pub open spec fn selected_dirs(labeled: Seq<LabeledProject>, filter: Seq<Seq<char>>) -> Seq<Seq<char>>
    decreases labeled.len(),
{
    if labeled.len() == 0 {
        seq![]
    } else {
        selected_dirs(labeled.drop_last(), filter) + if filter.contains(labeled.last().label@) {
            seq![labeled.last().project_dir@]
        } else {
            seq![]
        }
    }
}

/// The directories of the projects that `project_filter` names. Fails with
/// "project not initialized" when there is no project, and with "unknown
/// project: " and the first name that no project has.
pub fn filter_labeled_projects(labeled: &Vec<LabeledProject>, project_filter: &Vec<String>) -> (r: Result<
    Vec<String>,
    KanbusError,
>)
    ensures
        labeled@.len() == 0 ==> (r matches Err(e) && e is IssueOperation && e->IssueOperation_0@
            == "project not initialized"@),
        labeled@.len() > 0 ==> match first_unbound(project_filter.deep_view(), project_labels(labeled@)) {
            Some(n) => r matches Err(e) && e is IssueOperation && e->IssueOperation_0@ == "unknown project: "@ + n,
            None => r matches Ok(dirs) && dirs.deep_view() == selected_dirs(labeled@, project_filter.deep_view()),
        },
{
    if labeled.len() == 0 {
        return Err(KanbusError::IssueOperation(owned("project not initialized")));
    }
    let mut labels: Vec<String> = Vec::new();
    let mut i: usize = 0;
    while i < labeled.len()
        invariant
            i <= labeled@.len(),
            labels.deep_view() == project_labels(labeled@).take(i as int),
        decreases labeled@.len() - i,
    {
        let ghost before = labels.deep_view();
        labels.push(labeled[i].label.clone());
        assert(labels.deep_view() =~= before.push(labeled@[i as int].label@));
        assert(project_labels(labeled@).take(i + 1) =~= project_labels(labeled@).take(i as int).push(labeled@[i as int].label@));
        i += 1;
    }
    assert(project_labels(labeled@).take(i as int) =~= project_labels(labeled@));
    if let Some(name) = unbound_type(project_filter, &labels) {
        let mut message = owned("unknown project: ");
        message.append(name.as_str());
        return Err(KanbusError::IssueOperation(message));
    }
    let mut dirs: Vec<String> = Vec::new();
    let mut j: usize = 0;
    while j < labeled.len()
        invariant
            j <= labeled@.len(),
            dirs.deep_view() == selected_dirs(labeled@.take(j as int), project_filter.deep_view()),
        decreases labeled@.len() - j,
    {
        let ghost before = dirs.deep_view();
        assert(labeled@.take(j + 1).drop_last() =~= labeled@.take(j as int));
        if contains_str(project_filter, labeled[j].label.as_str()) {
            dirs.push(labeled[j].project_dir.clone());
            assert(dirs.deep_view() =~= before.push(labeled@[j as int].project_dir@));
        }
        assert(dirs.deep_view() =~= selected_dirs(labeled@.take(j + 1), project_filter.deep_view()));
        j += 1;
    }
    assert(labeled@.take(j as int) =~= labeled@);
    Ok(dirs)
}

/// Which projects a listing reads.
pub enum ListingScope {
    /// The one project found.
    SingleProject,
    /// Every project found, each issue tagged with its project.
    AcrossProjects,
}

/// The scope of a listing, from its local flags and the number of projects
/// found: refused when only local issues are asked for while local issues
/// are excluded, or when no project is found.
pub fn listing_scope(include_local: bool, local_only: bool, project_count: usize) -> (r: Result<ListingScope, KanbusError>)
    ensures
        local_only && !include_local ==> (r matches Err(e) && e is IssueOperation && e->IssueOperation_0@
            == "local-only conflicts with no-local"@),
        !(local_only && !include_local) && project_count == 0 ==> (r matches Err(e) && e is IssueOperation
            && e->IssueOperation_0@ == "project not initialized"@),
        !(local_only && !include_local) && project_count == 1 ==> r matches Ok(ListingScope::SingleProject),
        !(local_only && !include_local) && project_count > 1 ==> r matches Ok(ListingScope::AcrossProjects),
{
    if local_only && !include_local {
        return Err(KanbusError::IssueOperation(owned("local-only conflicts with no-local")));
    }
    if project_count == 0 {
        return Err(KanbusError::IssueOperation(owned("project not initialized")));
    }
    if project_count > 1 {
        return Ok(ListingScope::AcrossProjects);
    }
    Ok(ListingScope::SingleProject)
}

/// The project directories a listing considers: those found, each once,
/// in ascending order.
pub fn distinct_project_paths(found: Vec<String>) -> (r: Vec<String>)
    ensures
        strictly_sorted(r.deep_view()),
        r.deep_view().to_set() == found.deep_view().to_set(),
{
    let ghost all = found.deep_view();
    let ghost allv = found@;
    let mut distinct: Vec<String> = Vec::new();
    let mut rest = found;
    let n = rest.len();
    let mut i: usize = 0;
    while i < n
        invariant
            n == all.len(),
            n == allv.len(),
            all == allv.map_values(|x: String| x@),
            i <= n,
            rest@ == allv.subrange(i as int, n as int),
            distinct.deep_view().no_duplicates(),
            distinct.deep_view().to_set() == all.subrange(0, i as int).to_set(),
        decreases n - i,
    {
        let p = rest.remove(0);
        proof {
            assert(rest@ =~= allv.subrange(i + 1, n as int));
            assert(p@ == all[i as int]);
            assert(all.subrange(0, i + 1) =~= all.subrange(0, i as int).push(p@));
            all.subrange(0, i as int).lemma_push_to_set_commute(p@);
        }
        if !contains_str(&distinct, p.as_str()) {
            let ghost before = distinct.deep_view();
            distinct.push(p);
            proof {
                assert(distinct.deep_view() =~= before.push(p@));
                before.lemma_push_to_set_commute(p@);
                assert forall|a: int, b: int| 0 <= a < b < distinct.deep_view().len() implies distinct.deep_view()[a]
                    != distinct.deep_view()[b] by {
                    if b == before.len() {
                        assert(before.contains(before[a]));
                    }
                }
            }
        } else {
            proof {
                assert(distinct.deep_view().to_set().contains(p@));
                assert(distinct.deep_view().to_set().insert(p@) =~= distinct.deep_view().to_set());
            }
        }
        i += 1;
    }
    assert(all.subrange(0, n as int) =~= all);
    sort_distinct_strings(distinct)
}

/// What looking for a project's issues directory found.
pub enum IssuesDirectory {
    /// The directory is there.
    Present,
    /// There is no such directory (or it is no directory).
    Absent,
    /// Looking was refused, with the system's message.
    PermissionDenied(String),
}

/// The message of the last project whose issues directory could not be
/// looked at.
pub open spec fn last_denied(entries: Seq<(String, IssuesDirectory)>) -> Option<Seq<char>>
    decreases entries.len(),
{
    if entries.len() == 0 {
        None
    } else {
        match entries.last().1 {
            IssuesDirectory::PermissionDenied(m) => Some(m@),
            _ => last_denied(entries.drop_last()),
        }
    }
}

/// The projects, in order, whose issues directory is there.
pub open spec fn present_projects(entries: Seq<(String, IssuesDirectory)>) -> Seq<Seq<char>>
    decreases entries.len(),
{
    if entries.len() == 0 {
        seq![]
    } else {
        present_projects(entries.drop_last()) + if entries.last().1 is Present {
            seq![entries.last().0@]
        } else {
            seq![]
        }
    }
}

/// The projects a listing reads: those whose issues directory is there. A
/// directory that could not be looked at fails the listing with the
/// message of the last such one; no project at all is "project not
/// initialized".
pub fn projects_with_issues(entries: Vec<(String, IssuesDirectory)>) -> (r: Result<Vec<String>, KanbusError>)
    ensures
        match last_denied(entries@) {
            Some(m) => r matches Err(e) && e is Io && e->Io_0@ == m,
            None => if present_projects(entries@).len() == 0 {
                r matches Err(e) && e is IssueOperation && e->IssueOperation_0@ == "project not initialized"@
            } else {
                r matches Ok(ps) && ps.deep_view() == present_projects(entries@)
            },
        },
{
    let ghost all = entries@;
    let mut rest = entries;
    let n = rest.len();
    let mut kept: Vec<String> = Vec::new();
    let mut denied: Option<String> = None;
    let mut i: usize = 0;
    while i < n
        invariant
            n == all.len(),
            i <= n,
            rest@ == all.subrange(i as int, n as int),
            kept.deep_view() == present_projects(all.subrange(0, i as int)),
            match denied {
                Some(m) => last_denied(all.subrange(0, i as int)) == Some(m@),
                None => last_denied(all.subrange(0, i as int)) is None,
            },
        decreases n - i,
    {
        let (path, state) = rest.remove(0);
        proof {
            assert(rest@ =~= all.subrange(i + 1, n as int));
            assert(all.subrange(0, i + 1).drop_last() =~= all.subrange(0, i as int));
            assert(all.subrange(0, i + 1).last() == (path, state));
        }
        let ghost before = kept.deep_view();
        match state {
            IssuesDirectory::Present => {
                kept.push(path);
                assert(kept.deep_view() =~= before + seq![all[i as int].0@]);
            },
            IssuesDirectory::Absent => {
                assert(kept.deep_view() =~= before + Seq::<Seq<char>>::empty());
            },
            IssuesDirectory::PermissionDenied(m) => {
                denied = Some(m);
                assert(kept.deep_view() =~= before + Seq::<Seq<char>>::empty());
            },
        }
        i += 1;
    }
    assert(all.subrange(0, n as int) =~= all);
    match denied {
        Some(m) => Err(KanbusError::Io(m)),
        None => {
            if kept.len() == 0 {
                Err(KanbusError::IssueOperation(owned("project not initialized")))
            } else {
                Ok(kept)
            }
        },
    }
}

} // verus!
