//! Issue updates: label edits, duplicate titles, and the field changes an
//! update makes.

use vstd::prelude::*;
use vstd::string::*;

use crate::agent_metadata::{agent_provenance_is_complete, provenance_complete};
use crate::error::KanbusError;
use crate::hierarchy::{allowed_child_types, hierarchy_message, validate_parent_child_relationship};
use crate::issue_creation::{known_issue_type, resolve_issue_identifier, short_id_candidates, validate_issue_type};
use crate::models::{opt_agent_eq, opt_agents_equal, opt_text_view, AgentMetadata, IssueData, ProjectConfiguration};
use crate::text::{ascii_lower, contains_str, equals, owned, push_char, to_ascii_lowercase, trim, trim_ws};

verus! {

/// Result of an issue update operation.
pub struct IssueUpdateResult {
    /// Updated issue data.
    pub issue: IssueData,
    /// Whether disk state changed.
    pub changed: bool,
}

/// Two texts are equal ignoring ASCII case.
pub open spec fn eq_ignore_case(a: Seq<char>, b: Seq<char>) -> bool {
    ascii_lower(a) == ascii_lower(b)
}

fn equals_ignore_case(a: &str, b: &str) -> (r: bool)
    ensures
        r == eq_ignore_case(a@, b@),
{
    equals(&to_ascii_lowercase(a), &to_ascii_lowercase(b))
}

/// The parts of a text between commas, as `str::split(',')` gives them.
pub open spec fn split_commas(s: Seq<char>) -> Seq<Seq<char>>
    decreases s.len(),
{
    if s.len() == 0 {
        seq![seq![]]
    } else {
        let r = split_commas(s.drop_last());
        if s.last() == ',' {
            r.push(seq![])
        } else {
            r.update(r.len() - 1, r.last().push(s.last()))
        }
    }
}

proof fn lemma_split_commas_nonempty(s: Seq<char>)
    ensures
        split_commas(s).len() >= 1,
    decreases s.len(),
{
    if s.len() > 0 {
        lemma_split_commas_nonempty(s.drop_last());
    }
}

/// Split a text at its commas.
pub fn split_at_commas(s: &str) -> (r: Vec<String>)
    ensures
        r.deep_view() == split_commas(s@),
{
    let n = s.unicode_len();
    let mut done: Vec<String> = Vec::new();
    let mut current = String::new();
    let mut i: usize = 0;
    while i < n
        invariant
            n == s@.len(),
            i <= n,
            done.deep_view().push(current@) == split_commas(s@.subrange(0, i as int)),
        decreases n - i,
    {
        let c = s.get_char(i);
        assert(s@.subrange(0, i + 1).drop_last() =~= s@.subrange(0, i as int));
        proof {
            lemma_split_commas_nonempty(s@.subrange(0, i as int));
        }
        if c == ',' {
            let ghost before = done.deep_view();
            done.push(current);
            current = String::new();
            assert(done.deep_view() =~= before.push(split_commas(s@.subrange(0, i as int)).last()));
            assert(done.deep_view().push(current@) =~= split_commas(s@.subrange(0, i + 1)));
        } else {
            let ghost before = done.deep_view();
            push_char(&mut current, c);
            assert(done.deep_view().push(current@) =~= split_commas(s@.subrange(0, i + 1)));
        }
        i += 1;
    }
    assert(s@.subrange(0, n as int) =~= s@);
    let ghost before = done.deep_view();
    done.push(current);
    assert(done.deep_view() =~= before.push(current@));
    done
}

/// The labels a comma-separated text sets: each part trimmed, blank parts
/// dropped.
pub open spec fn labels_from_parts(parts: Seq<Seq<char>>) -> Seq<Seq<char>>
    decreases parts.len(),
{
    if parts.len() == 0 {
        seq![]
    } else {
        let r = labels_from_parts(parts.drop_last());
        if trim_ws(parts.last()).len() > 0 {
            r.push(trim_ws(parts.last()))
        } else {
            r
        }
    }
}

/// Some label equals `x`, ignoring ASCII case.
pub open spec fn has_label_like(labels: Seq<Seq<char>>, x: Seq<char>) -> bool {
    exists|i: int| 0 <= i < labels.len() && eq_ignore_case(#[trigger] labels[i], x)
}

/// The labels with each added label appended, trimmed, unless it is blank or
/// already present ignoring ASCII case.
pub open spec fn with_added_labels(labels: Seq<Seq<char>>, adds: Seq<Seq<char>>) -> Seq<Seq<char>>
    decreases adds.len(),
{
    if adds.len() == 0 {
        labels
    } else {
        let r = with_added_labels(labels, adds.drop_last());
        let t = trim_ws(adds.last());
        if t.len() > 0 && !has_label_like(r, t) {
            r.push(t)
        } else {
            r
        }
    }
}

/// The label is named by some removal, trimmed, ignoring ASCII case.
pub open spec fn removed_by(label: Seq<char>, removes: Seq<Seq<char>>) -> bool {
    exists|j: int| 0 <= j < removes.len() && eq_ignore_case(label, trim_ws(#[trigger] removes[j]))
}

/// The labels without those a removal names.
pub open spec fn without_removed_labels(labels: Seq<Seq<char>>, removes: Seq<Seq<char>>) -> Seq<Seq<char>>
    decreases labels.len(),
{
    if labels.len() == 0 {
        seq![]
    } else {
        let r = without_removed_labels(labels.drop_last(), removes);
        if removed_by(labels.last(), removes) {
            r
        } else {
            r.push(labels.last())
        }
    }
}

/// The labels after an edit: the set ones (or the current ones), with the
/// added ones appended, without the removed ones.
pub open spec fn edited_labels(
    current: Seq<Seq<char>>,
    adds: Seq<Seq<char>>,
    removes: Seq<Seq<char>>,
    set: Option<Seq<char>>,
) -> Seq<Seq<char>> {
    let base = match set {
        Some(s) => labels_from_parts(split_commas(s)),
        None => current,
    };
    let added = with_added_labels(base, adds);
    if removes.len() > 0 {
        without_removed_labels(added, removes)
    } else {
        added
    }
}

fn contains_label_like(labels: &Vec<String>, x: &str) -> (r: bool)
    ensures
        r == has_label_like(labels.deep_view(), x@),
{
    let mut i: usize = 0;
    while i < labels.len()
        invariant
            i <= labels@.len(),
            forall|k: int| 0 <= k < i ==> !eq_ignore_case(#[trigger] labels.deep_view()[k], x@),
        decreases labels@.len() - i,
    {
        if equals_ignore_case(&labels[i], x) {
            assert(eq_ignore_case(labels.deep_view()[i as int], x@));
            return true;
        }
        i += 1;
    }
    false
}

fn removed_by_any(label: &str, removes: &[String]) -> (r: bool)
    ensures
        r == removed_by(label@, removes.deep_view()),
{
    let mut j: usize = 0;
    while j < removes.len()
        invariant
            j <= removes@.len(),
            forall|k: int| 0 <= k < j ==> !eq_ignore_case(label@, trim_ws(#[trigger] removes.deep_view()[k])),
        decreases removes@.len() - j,
    {
        if equals_ignore_case(label, &trim(&removes[j])) {
            assert(eq_ignore_case(label@, trim_ws(removes.deep_view()[j as int])));
            return true;
        }
        j += 1;
    }
    false
}

fn push_label(v: &mut Vec<String>, s: String)
    ensures
        final(v).deep_view() == old(v).deep_view().push(s@),
{
    let ghost before = v.deep_view();
    v.push(s);
    assert(v.deep_view() =~= before.push(s@));
}

/// Apply a label edit: `set` replaces the labels by the comma-separated
/// ones, `add` appends labels not yet present, `remove` drops labels it
/// names; comparisons ignore ASCII case.
pub fn edit_labels(current: &Vec<String>, add: &[String], remove: &[String], set: Option<&str>) -> (r: Vec<String>)
    ensures
        r.deep_view() == edited_labels(
            current.deep_view(),
            add.deep_view(),
            remove.deep_view(),
            crate::agent_metadata::opt_str_view(set),
        ),
{
    let mut labels: Vec<String> = match set {
        Some(value) => {
            let parts = split_at_commas(value);
            let ghost pv = parts.deep_view();
            let mut out: Vec<String> = Vec::new();
            let mut i: usize = 0;
            while i < parts.len()
                invariant
                    i <= parts@.len(),
                    pv == parts.deep_view(),
                    out.deep_view() == labels_from_parts(pv.subrange(0, i as int)),
                decreases parts@.len() - i,
            {
                assert(pv.subrange(0, i + 1).drop_last() =~= pv.subrange(0, i as int));
                let t = trim(&parts[i]);
                if t.unicode_len() > 0 {
                    push_label(&mut out, t);
                }
                i += 1;
            }
            assert(pv.subrange(0, parts@.len() as int) =~= pv);
            out
        },
        None => crate::text::copy_strings(current),
    };
    let ghost base = labels.deep_view();
    let mut a: usize = 0;
    while a < add.len()
        invariant
            a <= add@.len(),
            labels.deep_view() == with_added_labels(base, add.deep_view().subrange(0, a as int)),
        decreases add@.len() - a,
    {
        assert(add.deep_view().subrange(0, a + 1).drop_last() =~= add.deep_view().subrange(0, a as int));
        let t = trim(&add[a]);
        if t.unicode_len() > 0 && !contains_label_like(&labels, &t) {
            push_label(&mut labels, t);
        }
        a += 1;
    }
    assert(add.deep_view().subrange(0, add@.len() as int) =~= add.deep_view());
    if remove.len() == 0 {
        return labels;
    }
    let ghost added = labels.deep_view();
    let mut kept: Vec<String> = Vec::new();
    let mut k: usize = 0;
    while k < labels.len()
        invariant
            k <= labels@.len(),
            added == labels.deep_view(),
            kept.deep_view() == without_removed_labels(added.subrange(0, k as int), remove.deep_view()),
        decreases labels@.len() - k,
    {
        assert(added.subrange(0, k + 1).drop_last() =~= added.subrange(0, k as int));
        if !removed_by_any(&labels[k], remove) {
            push_label(&mut kept, labels[k].clone());
        }
        k += 1;
    }
    assert(added.subrange(0, labels@.len() as int) =~= added);
    kept
}

proof fn lemma_added_labels_prefix(labels: Seq<Seq<char>>, adds: Seq<Seq<char>>)
    ensures
        with_added_labels(labels, adds).len() >= labels.len(),
        forall|i: int| 0 <= i < labels.len() ==> #[trigger] with_added_labels(labels, adds)[i] == labels[i],
    decreases adds.len(),
{
    if adds.len() > 0 {
        lemma_added_labels_prefix(labels, adds.drop_last());
    }
}

proof fn lemma_added_labels_present(labels: Seq<Seq<char>>, adds: Seq<Seq<char>>)
    ensures
        forall|k: int|
            0 <= k < adds.len() && trim_ws(#[trigger] adds[k]).len() > 0 ==> has_label_like(
                with_added_labels(labels, adds),
                trim_ws(adds[k]),
            ),
    decreases adds.len(),
{
    if adds.len() > 0 {
        let d = adds.drop_last();
        lemma_added_labels_present(labels, d);
        let r = with_added_labels(labels, d);
        lemma_added_labels_prefix(r, seq![adds.last()]);
        let res = with_added_labels(labels, adds);
        assert forall|k: int| 0 <= k < adds.len() && trim_ws(#[trigger] adds[k]).len() > 0 implies has_label_like(
            res,
            trim_ws(adds[k]),
        ) by {
            if k < adds.len() - 1 {
                assert(adds[k] == d[k]);
                assert(has_label_like(r, trim_ws(d[k])));
                let i = choose|i: int| 0 <= i < r.len() && eq_ignore_case(#[trigger] r[i], trim_ws(d[k]));
                assert(res[i] == r[i]);
            } else {
                let t = trim_ws(adds.last());
                if has_label_like(r, t) {
                    let i = choose|i: int| 0 <= i < r.len() && eq_ignore_case(#[trigger] r[i], t);
                    assert(res[i] == r[i]);
                } else {
                    assert(res[r.len() as int] == t);
                }
            }
        }
    }
}

proof fn lemma_removal(labels: Seq<Seq<char>>, removes: Seq<Seq<char>>)
    ensures
        forall|i: int|
            0 <= i < without_removed_labels(labels, removes).len() ==> !removed_by(
                #[trigger] without_removed_labels(labels, removes)[i],
                removes,
            ),
        forall|i: int|
            0 <= i < labels.len() && !removed_by(#[trigger] labels[i], removes) ==> without_removed_labels(labels, removes).contains(
                labels[i],
            ),
    decreases labels.len(),
{
    if labels.len() > 0 {
        let d = labels.drop_last();
        lemma_removal(d, removes);
        let r = without_removed_labels(d, removes);
        let res = without_removed_labels(labels, removes);
        assert forall|i: int| 0 <= i < labels.len() && !removed_by(#[trigger] labels[i], removes) implies res.contains(labels[i]) by {
            if i < labels.len() - 1 {
                assert(labels[i] == d[i]);
                assert(r.contains(d[i]));
                let j = choose|j: int| 0 <= j < r.len() && r[j] == d[i];
                assert(res[j] == r[j]);
            } else {
                assert(res[res.len() - 1] == labels[i]);
            }
        }
    }
}

/// Label edits keep their promises: no label that a removal names is left,
/// and every non-blank added label that no removal names is present,
/// ignoring ASCII case.
pub proof fn lemma_label_edit_laws(
    current: Seq<Seq<char>>,
    adds: Seq<Seq<char>>,
    removes: Seq<Seq<char>>,
    set: Option<Seq<char>>,
)
    ensures
        forall|i: int|
            0 <= i < edited_labels(current, adds, removes, set).len() ==> !removed_by(
                #[trigger] edited_labels(current, adds, removes, set)[i],
                removes,
            ),
        forall|k: int|
            0 <= k < adds.len() && trim_ws(#[trigger] adds[k]).len() > 0 && !removed_by(trim_ws(adds[k]), removes)
                ==> has_label_like(edited_labels(current, adds, removes, set), trim_ws(adds[k])),
{
    let base = match set {
        Some(s) => labels_from_parts(split_commas(s)),
        None => current,
    };
    let added = with_added_labels(base, adds);
    lemma_added_labels_present(base, adds);
    lemma_removal(added, removes);
    let res = edited_labels(current, adds, removes, set);
    assert forall|k: int|
        0 <= k < adds.len() && trim_ws(#[trigger] adds[k]).len() > 0 && !removed_by(trim_ws(adds[k]), removes)
            implies has_label_like(res, trim_ws(adds[k])) by {
        let t = trim_ws(adds[k]);
        assert(has_label_like(added, t));
        let i = choose|i: int| 0 <= i < added.len() && eq_ignore_case(#[trigger] added[i], t);
        if removes.len() > 0 {
            if removed_by(added[i], removes) {
                let j = choose|j: int| 0 <= j < removes.len() && eq_ignore_case(added[i], trim_ws(#[trigger] removes[j]));
                assert(eq_ignore_case(t, trim_ws(removes[j])));
            }
            assert(res.contains(added[i]));
            let m = choose|m: int| 0 <= m < res.len() && res[m] == added[i];
            assert(eq_ignore_case(res[m], t));
        } else {
            assert(eq_ignore_case(res[i], t));
        }
    }
    assert forall|i: int| 0 <= i < res.len() implies !removed_by(#[trigger] res[i], removes) by {
        if removes.len() == 0 {
        }
    }
}

proof fn lemma_adding_present_labels(labels: Seq<Seq<char>>, adds: Seq<Seq<char>>)
    requires
        forall|k: int| 0 <= k < adds.len() && trim_ws(#[trigger] adds[k]).len() > 0 ==> has_label_like(labels, trim_ws(adds[k])),
    ensures
        with_added_labels(labels, adds) == labels,
    decreases adds.len(),
{
    if adds.len() > 0 {
        let d = adds.drop_last();
        assert forall|k: int| 0 <= k < d.len() && trim_ws(#[trigger] d[k]).len() > 0 implies has_label_like(labels, trim_ws(d[k])) by {
            assert(d[k] == adds[k]);
        }
        lemma_adding_present_labels(labels, d);
        assert(adds.last() == adds[adds.len() - 1]);
    }
}

/// Adding the same labels a second time changes nothing.
pub proof fn lemma_adding_labels_is_idempotent(current: Seq<Seq<char>>, adds: Seq<Seq<char>>)
    ensures
        edited_labels(edited_labels(current, adds, seq![], None), adds, seq![], None) == edited_labels(
            current,
            adds,
            seq![],
            None,
        ),
{
    let once = with_added_labels(current, adds);
    lemma_added_labels_present(current, adds);
    lemma_adding_present_labels(once, adds);
}

/// The lowercase form that `str::to_lowercase` gives a text.
pub uninterp spec fn unicode_lower(s: Seq<char>) -> Seq<char>;

/// Lowercase a text: `str::to_lowercase`, which maps each character by the
/// Unicode lowercase rules. The result is named, not spelled out.
#[verifier::external_body]
pub(crate) fn lowercase(s: &str) -> (r: String)
    ensures
        r@ == unicode_lower(s@),
{
    s.to_lowercase()
}

/// The issue files of an issues directory: the stem of each `.json` file
/// and the issue it holds, or nothing where it does not read as an issue.
pub type IssueFiles = Vec<(String, Option<IssueData>)>;

/// The identifier of the issue in the first file, other than the one named
/// `current`, whose issue's title matches `title`, both trimmed and
/// lowercased; files that do not read as issues are passed over.
pub open spec fn duplicate_title_of(files: Seq<(String, Option<IssueData>)>, title: Seq<char>, current: Seq<char>) -> Option<Seq<char>>
    decreases files.len(),
{
    if files.len() == 0 {
        None
    } else {
        let (stem, parsed) = files[0];
        match parsed {
            Some(x) => if stem@ != current && unicode_lower(trim_ws(x.title@)) == unicode_lower(trim_ws(title)) {
                Some(x.identifier@)
            } else {
                duplicate_title_of(files.drop_first(), title, current)
            },
            None => duplicate_title_of(files.drop_first(), title, current),
        }
    }
}

/// Find another issue with the same title, ignoring case and surrounding
/// whitespace: the file named after `current_identifier` and files that do
/// not read as issues are passed over.
pub fn find_duplicate_title(files: &IssueFiles, title: &str, current_identifier: &str) -> (r: Option<String>)
    ensures
        match r {
            Some(id) => duplicate_title_of(files@, title@, current_identifier@) == Some(id@),
            None => duplicate_title_of(files@, title@, current_identifier@) is None,
        },
{
    let normalized = lowercase(&trim(title));
    let mut i: usize = 0;
    assert(files@.subrange(0, files@.len() as int) =~= files@);
    while i < files.len()
        invariant
            i <= files@.len(),
            normalized@ == unicode_lower(trim_ws(title@)),
            duplicate_title_of(files@, title@, current_identifier@) == duplicate_title_of(
                files@.subrange(i as int, files@.len() as int),
                title@,
                current_identifier@,
            ),
        decreases files@.len() - i,
    {
        let ghost rest = files@.subrange(i as int, files@.len() as int);
        assert(rest[0] == files@[i as int]);
        assert(rest.drop_first() =~= files@.subrange(i + 1, files@.len() as int));
        let (stem, parsed) = &files[i];
        if !equals(stem, current_identifier) {
            if let Some(x) = parsed {
                if equals(&lowercase(&trim(&x.title)), &normalized) {
                    return Some(x.identifier.clone());
                }
            }
        }
        i += 1;
    }
    None
}

/// A request to update an issue.
pub struct IssueUpdateRequest {
    pub title: Option<String>,
    pub description: Option<String>,
    pub status: Option<String>,
    pub assignee: Option<String>,
    pub priority: Option<u8>,
    pub claim: bool,
    pub validate: bool,
    pub add_labels: Vec<String>,
    pub remove_labels: Vec<String>,
    pub set_labels: Option<String>,
    pub parent: Option<String>,
    pub issue_type: Option<String>,
    pub agent: Option<AgentMetadata>,
}

/// The request names some field.
pub open spec fn fields_requested(req: IssueUpdateRequest) -> bool {
    req.title is Some || req.description is Some || req.status is Some || req.claim || req.assignee is Some
        || req.priority is Some || req.add_labels@.len() > 0 || req.remove_labels@.len() > 0 || req.set_labels is Some
        || req.parent is Some || req.issue_type is Some || req.agent is Some
}

/// The status an update moves to, if it changes: claiming means
/// "in_progress".
pub open spec fn requested_status(req: IssueUpdateRequest, issue: IssueData) -> Option<Seq<char>> {
    let s = if req.claim {
        Some("in_progress"@)
    } else {
        opt_text_view(req.status)
    };
    match s {
        Some(x) => if x == issue.status@ {
            None
        } else {
            Some(x)
        },
        None => None,
    }
}

/// The type an update changes to, if any: trimmed, not blank, not the
/// current one.
pub open spec fn requested_type(req: IssueUpdateRequest, issue: IssueData) -> Option<Seq<char>> {
    match req.issue_type {
        Some(t) => if trim_ws(t@).len() == 0 || trim_ws(t@) == issue.issue_type@ {
            None
        } else {
            Some(trim_ws(t@))
        },
        None => None,
    }
}

/// The title an update changes to, if it differs beyond case and
/// surrounding whitespace.
pub open spec fn requested_title(req: IssueUpdateRequest, issue: IssueData) -> Option<Seq<char>> {
    match req.title {
        Some(t) => if unicode_lower(trim_ws(t@)) != unicode_lower(trim_ws(issue.title@)) {
            Some(trim_ws(t@))
        } else {
            None
        },
        None => None,
    }
}

/// The description an update changes to, if it differs once trimmed.
pub open spec fn requested_description(req: IssueUpdateRequest, issue: IssueData) -> Option<Seq<char>> {
    match req.description {
        Some(d) => if trim_ws(d@) != issue.description@ {
            Some(trim_ws(d@))
        } else {
            None
        },
        None => None,
    }
}

/// The assignee an update changes to, if it differs.
pub open spec fn requested_assignee(req: IssueUpdateRequest, issue: IssueData) -> Option<Seq<char>> {
    match req.assignee {
        Some(a) => if opt_text_view(issue.assignee) != Some(a@) {
            Some(a@)
        } else {
            None
        },
        None => None,
    }
}

/// The priority an update changes to, if it differs.
pub open spec fn requested_priority(req: IssueUpdateRequest, issue: IssueData) -> Option<i32> {
    match req.priority {
        Some(p) => if issue.priority != p as i32 {
            Some(p as i32)
        } else {
            None
        },
        None => None,
    }
}

/// The labels an update changes to, if it edits them and they differ.
pub open spec fn requested_labels(req: IssueUpdateRequest, issue: IssueData) -> Option<Seq<Seq<char>>> {
    if req.set_labels is Some || req.add_labels@.len() > 0 || req.remove_labels@.len() > 0 {
        let l = edited_labels(
            issue.labels.deep_view(),
            req.add_labels.deep_view(),
            req.remove_labels.deep_view(),
            opt_text_view(req.set_labels),
        );
        if l != issue.labels.deep_view() {
            Some(l)
        } else {
            None
        }
    } else {
        None
    }
}

/// Identifiers of the issues.
pub open spec fn issue_ids(issues: Seq<IssueData>) -> Seq<Seq<char>> {
    issues.map_values(|x: IssueData| x.identifier@)
}

/// The issue an identifier or short identifier names, or the message why
/// none does.
pub open spec fn parent_resolution(issues: Seq<IssueData>, project_key: Seq<char>, candidate: Seq<char>) -> Result<Seq<char>, Seq<char>> {
    if issue_ids(issues).contains(candidate) {
        Ok(candidate)
    } else {
        let found = short_id_candidates(issue_ids(issues), project_key, candidate);
        if found.len() == 1 {
            Ok(found[0])
        } else if found.len() == 0 {
            Err("not found"@)
        } else {
            Err("ambiguous short id"@)
        }
    }
}

/// The type of the first issue with the identifier, if any.
pub open spec fn issue_type_of(issues: Seq<IssueData>, id: Seq<char>) -> Option<Seq<char>>
    decreases issues.len(),
{
    if issues.len() == 0 {
        None
    } else if issues[0].identifier@ == id {
        Some(issues[0].issue_type@)
    } else {
        issue_type_of(issues.drop_first(), id)
    }
}

/// The configuration lets a parent of one type have a child of another.
pub open spec fn hierarchy_allows(c: ProjectConfiguration, parent_type: Seq<char>, child_type: Seq<char>) -> bool {
    allowed_child_types(c.hierarchy.deep_view(), c.types.deep_view(), parent_type).contains(child_type)
}

/// The first child of `parent_id` whose type the new type may not have as
/// a child.
pub open spec fn refused_child(c: ProjectConfiguration, issues: Seq<IssueData>, parent_id: Seq<char>, new_type: Seq<char>) -> Option<Seq<char>>
    decreases issues.len(),
{
    if issues.len() == 0 {
        None
    } else {
        let x = issues[0];
        if opt_text_view(x.parent) == Some(parent_id) && !hierarchy_allows(c, new_type, x.issue_type@) {
            Some(x.issue_type@)
        } else {
            refused_child(c, issues.drop_first(), parent_id, new_type)
        }
    }
}

/// Why an update fails.
pub enum UpdateFailure {
    /// An error passed on from what the caller loaded.
    Passed(KanbusError),
    /// An issue operation error with a message.
    Issue(Seq<char>),
    /// A refused parent-child relationship: the parent's type and the child's.
    Hierarchy(Seq<char>, Seq<char>),
}

/// The error is the failure.
pub open spec fn failure_is(e: KanbusError, f: UpdateFailure) -> bool {
    match f {
        UpdateFailure::Passed(x) => e == x,
        UpdateFailure::Issue(m) => e is IssueOperation && e->IssueOperation_0@ == m,
        UpdateFailure::Hierarchy(p, c) => e is InvalidHierarchy && e->InvalidHierarchy_0@ == hierarchy_message(p, c),
    }
}

/// Values of the priorities a configuration defines.
pub open spec fn priority_values(c: ProjectConfiguration) -> Seq<u8> {
    c.priorities@.map_values(|e: (u8, crate::models::PriorityDefinition)| e.0)
}

/// Failure of the title check: a duplicate title elsewhere.
pub open spec fn title_failure(issue: IssueData, files: Result<IssueFiles, KanbusError>, req: IssueUpdateRequest) -> Option<UpdateFailure> {
    match requested_title(req, issue) {
        Some(n) => match files {
            Err(e) => Some(UpdateFailure::Passed(e)),
            Ok(v) => match duplicate_title_of(v@, n, issue.identifier@) {
                Some(d) => Some(UpdateFailure::Issue("duplicate title: \""@ + n + "\" already exists as "@ + d)),
                None => None,
            },
        },
        None => None,
    }
}

/// Failure of the priority check.
pub open spec fn priority_failure(c: ProjectConfiguration, req: IssueUpdateRequest) -> Option<UpdateFailure> {
    match req.priority {
        Some(p) => if req.validate && !priority_values(c).contains(p) {
            Some(UpdateFailure::Issue("invalid priority"@))
        } else {
            None
        },
        None => None,
    }
}

/// The type an issue has after the update.
pub open spec fn type_after(req: IssueUpdateRequest, issue: IssueData) -> Seq<char> {
    match requested_type(req, issue) {
        Some(t) => t,
        None => issue.issue_type@,
    }
}

/// The new parent of the update (if it changes), or why it fails.
pub open spec fn parent_outcome(
    issue: IssueData,
    c: ProjectConfiguration,
    issues: Result<Vec<IssueData>, KanbusError>,
    req: IssueUpdateRequest,
) -> Result<Option<Seq<char>>, UpdateFailure> {
    match req.parent {
        None => Ok(None),
        Some(candidate) => match issues {
            Err(e) => Err(UpdateFailure::Passed(e)),
            Ok(v) => match parent_resolution(v@, c.project_key@, candidate@) {
                Err(m) => Err(UpdateFailure::Issue(m)),
                Ok(pid) => if opt_text_view(issue.parent) == Some(pid) {
                    Ok(None)
                } else if !req.validate {
                    Ok(Some(pid))
                } else {
                    match issue_type_of(v@, pid) {
                        None => Err(UpdateFailure::Issue("not found"@)),
                        Some(pt) => if hierarchy_allows(c, pt, type_after(req, issue)) {
                            Ok(Some(pid))
                        } else {
                            Err(UpdateFailure::Hierarchy(pt, type_after(req, issue)))
                        },
                    }
                },
            },
        },
    }
}

/// Failure of the check of a new type against its parent and children.
pub open spec fn type_failure(
    issue: IssueData,
    c: ProjectConfiguration,
    issues: Result<Vec<IssueData>, KanbusError>,
    req: IssueUpdateRequest,
) -> Option<UpdateFailure> {
    if !req.validate {
        None
    } else {
        match requested_type(req, issue) {
            None => None,
            Some(nt) => if !known_issue_type(c, nt) {
                Some(UpdateFailure::Issue("unknown issue type"@))
            } else {
                match issues {
                    Err(e) => Some(UpdateFailure::Passed(e)),
                    Ok(v) => {
                        let children = match refused_child(c, v@, issue.identifier@, nt) {
                            Some(ct) => Some(UpdateFailure::Hierarchy(nt, ct)),
                            None => None,
                        };
                        match issue.parent {
                            Some(pid) => match issue_type_of(v@, pid@) {
                                None => Some(UpdateFailure::Issue("not found"@)),
                                Some(pt) => if !hierarchy_allows(c, pt, nt) {
                                    Some(UpdateFailure::Hierarchy(pt, nt))
                                } else {
                                    children
                                },
                            },
                            None => children,
                        }
                    },
                }
            },
        }
    }
}

/// Why an update fails, if it does: the checks in the order they run.
pub open spec fn update_failure(
    issue: IssueData,
    c: ProjectConfiguration,
    issues: Result<Vec<IssueData>, KanbusError>,
    files: Result<IssueFiles, KanbusError>,
    req: IssueUpdateRequest,
) -> Option<UpdateFailure> {
    if title_failure(issue, files, req) is Some {
        title_failure(issue, files, req)
    } else if priority_failure(c, req) is Some {
        priority_failure(c, req)
    } else if parent_outcome(issue, c, issues, req) is Err {
        Some(parent_outcome(issue, c, issues, req)->Err_0)
    } else if type_failure(issue, c, issues, req) is Some {
        type_failure(issue, c, issues, req)
    } else if req.agent is Some && provenance_complete(issue.agent) {
        Some(UpdateFailure::Issue("agent metadata is already set"@))
    } else {
        None
    }
}

/// The update replaces the agent record.
pub open spec fn agent_changes(issue: IssueData, req: IssueUpdateRequest) -> bool {
    req.agent is Some && !opt_agent_eq(req.agent, issue.agent)
}

/// The update changes nothing.
pub open spec fn nothing_changes(
    issue: IssueData,
    c: ProjectConfiguration,
    issues: Result<Vec<IssueData>, KanbusError>,
    req: IssueUpdateRequest,
) -> bool {
    &&& requested_status(req, issue) is None
    &&& requested_type(req, issue) is None
    &&& requested_title(req, issue) is None
    &&& requested_description(req, issue) is None
    &&& requested_assignee(req, issue) is None
    &&& requested_priority(req, issue) is None
    &&& requested_labels(req, issue) is None
    &&& parent_outcome(issue, c, issues, req) == Ok::<Option<Seq<char>>, UpdateFailure>(None)
    &&& !agent_changes(issue, req)
}

/// `after` is `base` with the update's field changes applied.
pub open spec fn fields_applied(
    after: IssueData,
    base: IssueData,
    issue: IssueData,
    c: ProjectConfiguration,
    issues: Result<Vec<IssueData>, KanbusError>,
    req: IssueUpdateRequest,
) -> bool {
    &&& after == (IssueData {
        issue_type: after.issue_type,
        title: after.title,
        description: after.description,
        assignee: after.assignee,
        priority: after.priority,
        labels: after.labels,
        parent: after.parent,
        agent: after.agent,
        ..base
    })
    &&& after.issue_type@ == (match requested_type(req, issue) {
        Some(t) => t,
        None => base.issue_type@,
    })
    &&& after.title@ == (match requested_title(req, issue) {
        Some(t) => t,
        None => base.title@,
    })
    &&& after.description@ == (match requested_description(req, issue) {
        Some(d) => d,
        None => base.description@,
    })
    &&& opt_text_view(after.assignee) == (match requested_assignee(req, issue) {
        Some(a) => Some(a),
        None => opt_text_view(base.assignee),
    })
    &&& after.priority == (match requested_priority(req, issue) {
        Some(p) => p,
        None => base.priority,
    })
    &&& after.labels.deep_view() == (match requested_labels(req, issue) {
        Some(l) => l,
        None => base.labels.deep_view(),
    })
    &&& opt_text_view(after.parent) == (match parent_outcome(issue, c, issues, req) {
        Ok(Some(p)) => Some(p),
        _ => opt_text_view(base.parent),
    })
    &&& after.agent == (if agent_changes(issue, req) {
        req.agent
    } else {
        base.agent
    })
}

pub(crate) fn issue_id_list(issues: &Vec<IssueData>) -> (r: Vec<String>)
    ensures
        r.deep_view() == issue_ids(issues@),
{
    let mut out: Vec<String> = Vec::new();
    let mut i: usize = 0;
    while i < issues.len()
        invariant
            i <= issues@.len(),
            out.deep_view() == issue_ids(issues@).subrange(0, i as int),
        decreases issues@.len() - i,
    {
        push_label(&mut out, issues[i].identifier.clone());
        assert(out.deep_view() =~= issue_ids(issues@).subrange(0, i + 1));
        i += 1;
    }
    assert(issue_ids(issues@).subrange(0, issues@.len() as int) =~= issue_ids(issues@));
    out
}

pub(crate) fn type_of_issue(issues: &Vec<IssueData>, id: &str) -> (r: Option<String>)
    ensures
        match r {
            Some(t) => issue_type_of(issues@, id@) == Some(t@),
            None => issue_type_of(issues@, id@) is None,
        },
{
    let mut i: usize = 0;
    assert(issues@.subrange(0, issues@.len() as int) =~= issues@);
    while i < issues.len()
        invariant
            i <= issues@.len(),
            issue_type_of(issues@, id@) == issue_type_of(issues@.subrange(i as int, issues@.len() as int), id@),
        decreases issues@.len() - i,
    {
        let ghost rest = issues@.subrange(i as int, issues@.len() as int);
        assert(rest[0] == issues@[i as int]);
        assert(rest.drop_first() =~= issues@.subrange(i + 1, issues@.len() as int));
        if equals(&issues[i].identifier, id) {
            return Some(issues[i].issue_type.clone());
        }
        i += 1;
    }
    None
}

pub(crate) fn hierarchy_allowed(c: &ProjectConfiguration, parent_type: &str, child_type: &str) -> (r: bool)
    ensures
        r == hierarchy_allows(*c, parent_type@, child_type@),
{
    validate_parent_child_relationship(c, parent_type, child_type).is_ok()
}

fn find_refused_child(c: &ProjectConfiguration, issues: &Vec<IssueData>, parent_id: &str, new_type: &str) -> (r: Option<String>)
    ensures
        match r {
            Some(t) => refused_child(*c, issues@, parent_id@, new_type@) == Some(t@),
            None => refused_child(*c, issues@, parent_id@, new_type@) is None,
        },
{
    let mut i: usize = 0;
    assert(issues@.subrange(0, issues@.len() as int) =~= issues@);
    while i < issues.len()
        invariant
            i <= issues@.len(),
            refused_child(*c, issues@, parent_id@, new_type@) == refused_child(
                *c,
                issues@.subrange(i as int, issues@.len() as int),
                parent_id@,
                new_type@,
            ),
        decreases issues@.len() - i,
    {
        let ghost rest = issues@.subrange(i as int, issues@.len() as int);
        assert(rest[0] == issues@[i as int]);
        assert(rest.drop_first() =~= issues@.subrange(i + 1, issues@.len() as int));
        let x = &issues[i];
        let is_child = match &x.parent {
            Some(p) => equals(p, parent_id),
            None => false,
        };
        if is_child && !hierarchy_allowed(c, new_type, &x.issue_type) {
            return Some(x.issue_type.clone());
        }
        i += 1;
    }
    None
}

pub(crate) fn hierarchy_error(parent_type: &str, child_type: &str) -> (e: KanbusError)
    ensures
        failure_is(e, UpdateFailure::Hierarchy(parent_type@, child_type@)),
{
    let mut message = crate::text::join3("invalid parent-child relationship: '", parent_type, "' cannot have child '");
    message.append(child_type);
    message.append("'");
    KanbusError::InvalidHierarchy(message)
}

fn title_step(issue: &IssueData, issues: &Result<IssueFiles, KanbusError>, req: &IssueUpdateRequest) -> (r: Result<Option<String>, KanbusError>)
    ensures
        match title_failure(*issue, *issues, *req) {
            Some(f) => r matches Err(e) && failure_is(e, f),
            None => r matches Ok(o) && opt_text_view(o) == requested_title(*req, *issue),
        },
{
    match &req.title {
        None => Ok(None),
        Some(t) => {
            let n = trim(t);
            if equals(&lowercase(&n), &lowercase(&trim(&issue.title))) {
                return Ok(None);
            }
            match issues {
                Err(e) => Err(e.duplicate()),
                Ok(v) => match find_duplicate_title(v, &n, &issue.identifier) {
                    Some(d) => {
                        let mut m = owned("duplicate title: \"");
                        m.append(&n);
                        m.append("\" already exists as ");
                        m.append(&d);
                        Err(KanbusError::IssueOperation(m))
                    },
                    None => Ok(Some(n)),
                },
            }
        },
    }
}

fn parent_step(
    issue: &IssueData,
    c: &ProjectConfiguration,
    issues: &Result<Vec<IssueData>, KanbusError>,
    req: &IssueUpdateRequest,
    new_type: &Option<String>,
) -> (r: Result<Option<String>, KanbusError>)
    requires
        opt_text_view(*new_type) == requested_type(*req, *issue),
    ensures
        match parent_outcome(*issue, *c, *issues, *req) {
            Err(f) => r matches Err(e) && failure_is(e, f),
            Ok(o) => r matches Ok(p) && opt_text_view(p) == o,
        },
{
    let candidate = match &req.parent {
        None => return Ok(None),
        Some(candidate) => candidate,
    };
    let v = match issues {
        Err(e) => return Err(e.duplicate()),
        Ok(v) => v,
    };
    let ids = issue_id_list(v);
    let exact = contains_str(&ids, candidate);
    let resolved = match resolve_issue_identifier(&c.project_key, candidate, exact, Ok(ids)) {
        Ok(id) => id,
        Err(e) => return Err(e),
    };
    let same = match &issue.parent {
        Some(p) => equals(p, &resolved),
        None => false,
    };
    if same {
        return Ok(None);
    }
    if !req.validate {
        return Ok(Some(resolved));
    }
    let parent_type = match type_of_issue(v, &resolved) {
        Some(t) => t,
        None => {
            let m = owned("not found");
            proof {
                reveal_strlit("not found");
            }
            return Err(KanbusError::IssueOperation(m));
        },
    };
    let child_type = match new_type {
        Some(t) => t.clone(),
        None => issue.issue_type.clone(),
    };
    if !hierarchy_allowed(c, &parent_type, &child_type) {
        return Err(hierarchy_error(&parent_type, &child_type));
    }
    Ok(Some(resolved))
}

fn type_step(
    issue: &IssueData,
    c: &ProjectConfiguration,
    issues: &Result<Vec<IssueData>, KanbusError>,
    req: &IssueUpdateRequest,
    new_type: &Option<String>,
) -> (r: Result<(), KanbusError>)
    requires
        opt_text_view(*new_type) == requested_type(*req, *issue),
    ensures
        match type_failure(*issue, *c, *issues, *req) {
            Some(f) => r matches Err(e) && failure_is(e, f),
            None => r is Ok,
        },
{
    if !req.validate {
        return Ok(());
    }
    let nt = match new_type {
        None => return Ok(()),
        Some(t) => t,
    };
    if let Err(e) = validate_issue_type(c, nt) {
        return Err(e);
    }
    let v = match issues {
        Err(e) => return Err(e.duplicate()),
        Ok(v) => v,
    };
    if let Some(pid) = &issue.parent {
        let parent_type = match type_of_issue(v, pid) {
            Some(t) => t,
            None => {
                let m = owned("not found");
                proof {
                    reveal_strlit("not found");
                }
                return Err(KanbusError::IssueOperation(m));
            },
        };
        if !hierarchy_allowed(c, &parent_type, nt) {
            return Err(hierarchy_error(&parent_type, nt));
        }
    }
    match find_refused_child(c, v, &issue.identifier, nt) {
        Some(ct) => Err(hierarchy_error(nt, &ct)),
        None => Ok(()),
    }
}

fn requested_type_of(req: &IssueUpdateRequest, issue: &IssueData) -> (r: Option<String>)
    ensures
        opt_text_view(r) == requested_type(*req, *issue),
{
    match &req.issue_type {
        Some(t) => {
            let n = trim(t);
            if n.unicode_len() == 0 || equals(&n, &issue.issue_type) {
                None
            } else {
                Some(n)
            }
        },
        None => None,
    }
}

fn requested_status_of(req: &IssueUpdateRequest, issue: &IssueData) -> (r: Option<String>)
    ensures
        opt_text_view(r) == requested_status(*req, *issue),
{
    let wanted = if req.claim {
        let s = owned("in_progress");
        Some(s)
    } else {
        match &req.status {
            Some(s) => Some(s.clone()),
            None => None,
        }
    };
    match wanted {
        Some(x) => if equals(&x, &issue.status) {
            None
        } else {
            Some(x)
        },
        None => None,
    }
}

fn requested_labels_of(req: &IssueUpdateRequest, issue: &IssueData) -> (r: Option<Vec<String>>)
    ensures
        match r {
            Some(l) => requested_labels(*req, *issue) == Some(l.deep_view()),
            None => requested_labels(*req, *issue) is None,
        },
{
    if req.set_labels.is_none() && req.add_labels.len() == 0 && req.remove_labels.len() == 0 {
        return None;
    }
    let set = match &req.set_labels {
        Some(s) => Some(s.as_str()),
        None => None,
    };
    let labels = edit_labels(&issue.labels, req.add_labels.as_slice(), req.remove_labels.as_slice(), set);
    assert(crate::agent_metadata::opt_str_view(set) == opt_text_view(req.set_labels));
    if crate::config_loader::strings_equal(&labels, &issue.labels) {
        None
    } else {
        Some(labels)
    }
}

/// What an update whose checks pass gives, when it changes something.
pub open spec fn changed_outcome<F: FnOnce(IssueData, String, String) -> Result<IssueData, KanbusError>>(
    issue: IssueData,
    c: ProjectConfiguration,
    issues: Result<Vec<IssueData>, KanbusError>,
    req: IssueUpdateRequest,
    transition: F,
    r: Result<IssueUpdateResult, KanbusError>,
) -> bool {
    match requested_status(req, issue) {
        Some(st) => exists|ty: String, s: String, t: Result<IssueData, KanbusError>|
            #![trigger call_ensures(transition, (issue, ty, s), t)]
            ty@ == type_after(req, issue) && s@ == st && call_ensures(transition, (issue, ty, s), t) && match t {
                Err(e) => r == Err::<IssueUpdateResult, KanbusError>(e),
                Ok(ti) => r matches Ok(res) && res.changed && res.issue.status@ == st && fields_applied(
                    res.issue,
                    IssueData { status: res.issue.status, ..ti },
                    issue,
                    c,
                    issues,
                    req,
                ),
            },
        None => r matches Ok(res) && res.changed && fields_applied(res.issue, issue, issue, c, issues, req),
    }
}

/// Whether the configuration defines the priority `p`.
pub(crate) fn priority_known(c: &ProjectConfiguration, p: u8) -> (known: bool)
    ensures
        known == priority_values(*c).contains(p),
{
    let mut known = false;
    let mut i: usize = 0;
    while i < c.priorities.len()
        invariant
            i <= c.priorities@.len(),
            known == priority_values(*c).subrange(0, i as int).contains(p),
        decreases c.priorities@.len() - i,
    {
        assert(priority_values(*c)[i as int] == c.priorities@[i as int].0);
        assert(priority_values(*c).subrange(0, i + 1) =~= priority_values(*c).subrange(0, i as int).push(c.priorities@[i as int].0));
        if c.priorities[i].0 == p {
            known = true;
        }
        proof {
            let s0 = priority_values(*c).subrange(0, i as int);
            let s1 = priority_values(*c).subrange(0, i + 1);
            if s1.contains(p) {
                let k = choose|k: int| 0 <= k < s1.len() && s1[k] == p;
                if k < i {
                    assert(s0[k] == p);
                }
            }
            if c.priorities@[i as int].0 == p {
                assert(s1[i as int] == p);
            }
            if s0.contains(p) {
                let k = choose|k: int| 0 <= k < s0.len() && s0[k] == p;
                assert(s1[k] == p);
            }
        }
        i += 1;
    }
    assert(priority_values(*c).subrange(0, c.priorities@.len() as int) =~= priority_values(*c));
    known
}

/// What updating gives: the loading or configuration error, the first
/// failing check, the unchanged issue (or "no updates requested"), or the
/// changed issue.
pub open spec fn update_outcome<F: FnOnce(IssueData, String, String) -> Result<IssueData, KanbusError>>(
    loaded: Result<IssueData, KanbusError>,
    configuration: Result<ProjectConfiguration, KanbusError>,
    project_issues: Result<Vec<IssueData>, KanbusError>,
    issue_files: Result<IssueFiles, KanbusError>,
    request: IssueUpdateRequest,
    transition: F,
    r: Result<IssueUpdateResult, KanbusError>,
) -> bool {
    match (loaded, configuration) {
        (Err(e), _) => r == Err::<IssueUpdateResult, KanbusError>(e),
        (Ok(_), Err(e)) => r == Err::<IssueUpdateResult, KanbusError>(e),
        (Ok(issue), Ok(c)) => match update_failure(issue, c, project_issues, issue_files, request) {
            Some(f) => r matches Err(e) && failure_is(e, f),
            None => if nothing_changes(issue, c, project_issues, request) {
                if fields_requested(request) {
                    r == Ok::<IssueUpdateResult, KanbusError>(IssueUpdateResult { issue, changed: false })
                } else {
                    r matches Err(e) && e is IssueOperation && e->IssueOperation_0@ == "no updates requested"@
                }
            } else {
                changed_outcome(issue, c, project_issues, request, transition, r)
            },
        },
    }
}

/// The request that closes an issue: its status to "closed", validated,
/// and nothing else.
pub open spec fn is_close_request(request: IssueUpdateRequest) -> bool {
    &&& request.title is None
    &&& request.description is None
    &&& request.status matches Some(s) && s@ == "closed"@
    &&& request.assignee is None
    &&& request.priority is None
    &&& !request.claim
    &&& request.validate
    &&& request.add_labels@.len() == 0
    &&& request.remove_labels@.len() == 0
    &&& request.set_labels is None
    &&& request.parent is None
    &&& request.issue_type is None
    &&& request.agent is None
}

/// Close an issue: update its status to "closed", with the same inputs as
/// `update_issue`, and give the updated issue.
pub fn close_issue<F: FnOnce(IssueData, String, String) -> Result<IssueData, KanbusError>>(
    loaded: Result<IssueData, KanbusError>,
    configuration: Result<ProjectConfiguration, KanbusError>,
    project_issues: Result<Vec<IssueData>, KanbusError>,
    issue_files: Result<IssueFiles, KanbusError>,
    transition: F,
) -> (r: Result<IssueData, KanbusError>)
    requires
        forall|i: IssueData, t: String, s: String| call_requires(transition, (i, t, s)),
    ensures
        exists|request: IssueUpdateRequest, u: Result<IssueUpdateResult, KanbusError>|
            is_close_request(request) && update_outcome(loaded, configuration, project_issues, issue_files, request, transition, u)
                && match u {
                Ok(result) => r == Ok::<IssueData, KanbusError>(result.issue),
                Err(e) => r == Err::<IssueData, KanbusError>(e),
            },
{
    let request = IssueUpdateRequest {
        title: None,
        description: None,
        status: Some(owned("closed")),
        assignee: None,
        priority: None,
        claim: false,
        validate: true,
        add_labels: Vec::new(),
        remove_labels: Vec::new(),
        set_labels: None,
        parent: None,
        issue_type: None,
        agent: None,
    };
    let ghost req = request;
    let u = update_issue(loaded, configuration, project_issues, issue_files, request, transition);
    let ghost uu = u;
    match u {
        Ok(result) => Ok(result.issue),
        Err(e) => Err(e),
    }
}

/// Update an issue. `loaded` is the issue as loaded (or the error that
/// loading gave), `configuration` the project's configuration,
/// `project_issues` the issues of the project's issues directory, from which
/// parents and children are found, and `issue_files` the files of that
/// directory, among which a duplicate title is looked for. A status change goes
/// through `transition`, which checks it against the workflow and applies
/// its side effects, given the issue, its type and the new status. The
/// result is the issue to persist, and whether anything changed.
pub fn update_issue<F: FnOnce(IssueData, String, String) -> Result<IssueData, KanbusError>>(
    loaded: Result<IssueData, KanbusError>,
    configuration: Result<ProjectConfiguration, KanbusError>,
    project_issues: Result<Vec<IssueData>, KanbusError>,
    issue_files: Result<IssueFiles, KanbusError>,
    request: IssueUpdateRequest,
    transition: F,
) -> (r: Result<IssueUpdateResult, KanbusError>)
    requires
        forall|i: IssueData, t: String, s: String| call_requires(transition, (i, t, s)),
    ensures
        update_outcome(loaded, configuration, project_issues, issue_files, request, transition, r),
{
    let issue = match loaded {
        Ok(issue) => issue,
        Err(e) => return Err(e),
    };
    let c = match configuration {
        Ok(c) => c,
        Err(e) => return Err(e),
    };
    let ghost req = request;
    let ghost issues = project_issues;
    let requested = request.title.is_some() || request.description.is_some() || request.status.is_some()
        || request.claim || request.assignee.is_some() || request.priority.is_some() || request.add_labels.len() > 0
        || request.remove_labels.len() > 0 || request.set_labels.is_some() || request.parent.is_some()
        || request.issue_type.is_some() || request.agent.is_some();
    let new_status = requested_status_of(&request, &issue);
    let new_type = requested_type_of(&request, &issue);
    let new_title = match title_step(&issue, &issue_files, &request) {
        Ok(t) => t,
        Err(e) => return Err(e),
    };
    let new_description = match &request.description {
        Some(d) => {
            let n = trim(d);
            if equals(&n, &issue.description) {
                None
            } else {
                Some(n)
            }
        },
        None => None,
    };
    let new_assignee = match &request.assignee {
        Some(a) => {
            let same = match &issue.assignee {
                Some(x) => equals(x, a),
                None => false,
            };
            if same {
                None
            } else {
                Some(a.clone())
            }
        },
        None => None,
    };
    let mut new_priority: Option<i32> = None;
    if let Some(p) = request.priority {
        if request.validate {
            let known = priority_known(&c, p);
            if !known {
                let m = owned("invalid priority");
                proof {
                    reveal_strlit("invalid priority");
                }
                return Err(KanbusError::IssueOperation(m));
            }
        }
        if issue.priority != p as i32 {
            new_priority = Some(p as i32);
        }
    }
    let new_labels = requested_labels_of(&request, &issue);
    let new_parent = match parent_step(&issue, &c, &project_issues, &request, &new_type) {
        Ok(p) => p,
        Err(e) => return Err(e),
    };
    if let Err(e) = type_step(&issue, &c, &project_issues, &request, &new_type) {
        return Err(e);
    }
    if request.agent.is_some() && agent_provenance_is_complete(issue.agent.as_ref()) {
        let m = owned("agent metadata is already set");
        proof {
            reveal_strlit("agent metadata is already set");
        }
        return Err(KanbusError::IssueOperation(m));
    }
    let agent_changed = request.agent.is_some() && !opt_agents_equal(&request.agent, &issue.agent);
    if new_status.is_none() && new_type.is_none() && new_title.is_none() && new_description.is_none()
        && new_assignee.is_none() && new_priority.is_none() && new_labels.is_none() && new_parent.is_none()
        && !agent_changed {
        if requested {
            return Ok(IssueUpdateResult { issue, changed: false });
        }
        let m = owned("no updates requested");
        proof {
            reveal_strlit("no updates requested");
        }
        return Err(KanbusError::IssueOperation(m));
    }
    let ghost original = issue;
    let mut updated = match new_status {
        Some(st) => {
            let ty = match &new_type {
                Some(t) => t.clone(),
                None => issue.issue_type.clone(),
            };
            let ghost ty_v = ty;
            let ghost st_v = st;
            let moved = transition(issue, ty, st.clone());
            match moved {
                Ok(mut t) => {
                    t.status = st;
                    t
                },
                Err(e) => {
                    return Err(e);
                },
            }
        },
        None => issue,
    };
    let ghost base = updated;
    if let Some(t) = new_type {
        updated.issue_type = t;
    }
    if let Some(t) = new_title {
        updated.title = t;
    }
    if let Some(d) = new_description {
        updated.description = d;
    }
    if let Some(a) = new_assignee {
        updated.assignee = Some(a);
    }
    if let Some(p) = new_priority {
        updated.priority = p;
    }
    if let Some(l) = new_labels {
        updated.labels = l;
    }
    if let Some(p) = new_parent {
        updated.parent = Some(p);
    }
    if agent_changed {
        updated.agent = request.agent;
    }
    Ok(IssueUpdateResult { issue: updated, changed: true })
}

} // verus!
