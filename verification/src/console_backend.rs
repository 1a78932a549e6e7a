//! Console backend: the file store and issue lookup by identifier.

use vstd::prelude::*;

use crate::issue_creation::{short_id_matches, short_id_rule};
use crate::models::{opt_text_view, IssueData, ProjectConfiguration};
use crate::paths::{join_path, path_join};
use crate::text::{
    contains_str, copy_strings, equals, lemma_str_le_transitive, owned, sort_distinct_strings, str_less,
    str_lt, strictly_sorted,
};

verus! {

/// Snapshot payload for the console.
pub struct ConsoleSnapshot {
    pub config: ProjectConfiguration,
    pub issues: Vec<IssueData>,
    pub updated_at: String,
}

/// File-backed store for console data.
pub struct FileStore {
    root: String,
}

impl FileStore {
    /// The store's root path.
    pub closed spec fn root_view(&self) -> Seq<char> {
        self.root@
    }

    /// Create a new file store rooted at the provided path.
    pub fn new(root: &str) -> (store: Self)
        ensures
            store.root_view() == root@,
    {
        FileStore { root: owned(root) }
    }

    /// Resolve a tenant root under a shared base directory:
    /// `{base}/{account}/{project}`.
    pub fn resolve_tenant_root(base: &str, account: &str, project: &str) -> (r: String)
        ensures
            r@ == path_join(path_join(base@, account@), project@),
    {
        let tenant = join_path(base, account);
        join_path(&tenant, project)
    }

    /// Return the file store root path.
    pub fn root(&self) -> (r: &str)
        ensures
            r@ == self.root_view(),
    {
        self.root.as_str()
    }
}

/// An issue answers to `identifier` when that is its full identifier or a
/// short identifier of it.
pub open spec fn answers_to(issue: IssueData, identifier: Seq<char>, project_key: Seq<char>) -> bool {
    issue.identifier@ == identifier || short_id_rule(identifier, project_key, issue.identifier@)
}

/// Resolve issues by full or short identifier: the issues that answer to
/// `identifier`, in order.
pub fn find_issue_matches<'a>(issues: &'a [IssueData], identifier: &str, project_key: &str) -> (r: Vec<&'a IssueData>)
    ensures
        forall|k: int| 0 <= k < r@.len() ==> answers_to(*#[trigger] r@[k], identifier@, project_key@),
        r@.len() <= issues@.len(),
        exists|idx: Seq<int>|
            #![trigger idx.len()]
            idx.len() == r@.len() && (forall|k: int| 0 <= k < idx.len() ==> 0 <= #[trigger] idx[k] < issues@.len() && *r@[k] == issues@[idx[k]])
                && (forall|k: int, l: int| 0 <= k < l < idx.len() ==> #[trigger] idx[k] < #[trigger] idx[l])
                && (forall|j: int| 0 <= j < issues@.len() && answers_to(#[trigger] issues@[j], identifier@, project_key@) ==> idx.contains(j)),
{
    let mut matches: Vec<&'a IssueData> = Vec::new();
    let ghost mut idx: Seq<int> = seq![];
    let mut i: usize = 0;
    while i < issues.len()
        invariant
            i <= issues@.len(),
            matches@.len() == idx.len(),
            matches@.len() <= i,
            forall|k: int| 0 <= k < idx.len() ==> 0 <= #[trigger] idx[k] < i && *matches@[k] == issues@[idx[k]],
            forall|k: int, l: int| 0 <= k < l < idx.len() ==> #[trigger] idx[k] < #[trigger] idx[l],
            forall|j: int| 0 <= j < i && answers_to(#[trigger] issues@[j], identifier@, project_key@) ==> idx.contains(j),
            forall|k: int| 0 <= k < matches@.len() ==> answers_to(*#[trigger] matches@[k], identifier@, project_key@),
        decreases issues@.len() - i,
    {
        let issue = &issues[i];
        if equals(&issue.identifier, identifier) || short_id_matches(identifier, project_key, &issue.identifier) {
            matches.push(issue);
            proof {
                let old_idx = idx;
                idx = idx.push(i as int);
                assert forall|j: int| 0 <= j < i + 1 && answers_to(#[trigger] issues@[j], identifier@, project_key@) implies idx.contains(j) by {
                    if j < i {
                        let k = choose|k: int| 0 <= k < old_idx.len() && old_idx[k] == j;
                        assert(idx[k] == j);
                    } else {
                        assert(idx[idx.len() - 1] == j);
                    }
                }
            }
        } else {
            proof {
                assert forall|j: int| 0 <= j < i + 1 && answers_to(#[trigger] issues@[j], identifier@, project_key@) implies idx.contains(j) by {
                    if j == i {
                        assert(false);
                    }
                }
            }
        }
        i += 1;
    }
    assert(idx.len() == matches@.len());
    matches
}

/// Whether some issue has the identifier `x`.
pub open spec fn is_issue_id(issues: Seq<IssueData>, x: Seq<char>) -> bool {
    exists|i: int| 0 <= i < issues.len() && (#[trigger] issues[i]).identifier@ == x
}

/// Position of the last issue with identifier `x`, or -1 when there is none.
pub open spec fn last_with_id(issues: Seq<IssueData>, x: Seq<char>) -> int
    decreases issues.len(),
{
    if issues.len() == 0 {
        -1
    } else if issues.last().identifier@ == x {
        issues.len() - 1
    } else {
        last_with_id(issues.drop_last(), x)
    }
}

proof fn lemma_last_with_id(issues: Seq<IssueData>, x: Seq<char>, r: int)
    requires
        r == -1 || (0 <= r < issues.len() && issues[r].identifier@ == x),
        forall|j: int| r < j < issues.len() ==> (#[trigger] issues[j]).identifier@ != x,
    ensures
        last_with_id(issues, x) == r,
    decreases issues.len(),
{
    if issues.len() > 0 && r != issues.len() - 1 {
        assert forall|j: int| r < j < issues.drop_last().len() implies (#[trigger] issues.drop_last()[j]).identifier@ != x by {
            assert(issues.drop_last()[j] == issues[j]);
        }
        lemma_last_with_id(issues.drop_last(), x, r);
    }
}

/// The parent recorded for the identifier `x`, by the last issue with that
/// identifier.
pub open spec fn parent_of(issues: Seq<IssueData>, x: Seq<char>) -> Option<Seq<char>> {
    let i = last_with_id(issues, x);
    if 0 <= i < issues.len() {
        opt_text_view(issues[i].parent)
    } else {
        None
    }
}

/// One step up the hierarchy: the parent of `x`, when it is an issue.
pub open spec fn step_up(issues: Seq<IssueData>, x: Seq<char>) -> Option<Seq<char>> {
    match parent_of(issues, x) {
        Some(p) => if is_issue_id(issues, p) {
            Some(p)
        } else {
            None
        },
        None => None,
    }
}

/// `n` steps up the hierarchy from `a`.
pub open spec fn up_n(issues: Seq<IssueData>, a: Seq<char>, n: nat) -> Option<Seq<char>>
    decreases n,
{
    if n == 0 {
        Some(a)
    } else {
        match up_n(issues, a, (n - 1) as nat) {
            Some(x) => step_up(issues, x),
            None => None,
        }
    }
}

/// Whether `x` is `a` or one of its ancestors.
pub open spec fn is_ancestor_or_self(issues: Seq<IssueData>, a: Seq<char>, x: Seq<char>) -> bool {
    exists|n: nat| up_n(issues, a, n) == Some(x)
}

/// Whether some issue `y` has the parent `x`.
pub open spec fn is_child(issues: Seq<IssueData>, x: Seq<char>, y: Seq<char>) -> bool {
    exists|i: int|
        0 <= i < issues.len() && (#[trigger] issues[i]).identifier@ == y && opt_text_view(issues[i].parent) == Some(
            x,
        )
}

/// Whether each identifier of `p` is a child of the one before it.
pub open spec fn is_down_path(issues: Seq<IssueData>, p: Seq<Seq<char>>) -> bool {
    p.len() >= 1 && forall|k: int| 0 <= k < p.len() - 1 ==> is_child(issues, #[trigger] p[k], p[k + 1])
}

/// Whether some issue with identifier `a` has the status `status`.
pub open spec fn is_active(issues: Seq<IssueData>, a: Seq<char>, status: Seq<char>) -> bool {
    exists|i: int| 0 <= i < issues.len() && (#[trigger] issues[i]).identifier@ == a && issues[i].status@ == status
}

/// Whether `y` is below some start identifier by a path of children.
pub open spec fn reachable_from(issues: Seq<IssueData>, starts: Seq<Seq<char>>, y: Seq<char>) -> bool {
    exists|p: Seq<Seq<char>>| #[trigger] is_down_path(issues, p) && starts.contains(p[0]) && p.last() == y
}

/// Whether `y` belongs to a tree with active work: it is a descendant (or
/// itself) of an ancestor (or itself) of an issue with the active status.
pub open spec fn in_active_tree(issues: Seq<IssueData>, status: Seq<char>, y: Seq<char>) -> bool {
    exists|a: Seq<char>, u: Seq<char>, p: Seq<Seq<char>>|
        #![trigger is_active(issues, a, status), is_ancestor_or_self(issues, a, u), is_down_path(issues, p)]
        is_active(issues, a, status) && is_ancestor_or_self(issues, a, u) && is_down_path(issues, p) && p[0] == u
            && p.last() == y
}

/// Whether `x` of the selected set has no parent inside the set.
pub open spec fn is_tree_root(issues: Seq<IssueData>, selected: Set<Seq<char>>, x: Seq<char>) -> bool {
    selected.contains(x) && !(parent_of(issues, x) matches Some(p) && selected.contains(p))
}

/// The roots to run: the selected identifiers without a selected parent, or,
/// when every one has one (a cyclic hierarchy), all of them.
pub open spec fn tree_roots(issues: Seq<IssueData>, selected: Set<Seq<char>>) -> Set<Seq<char>> {
    if exists|x: Seq<char>| is_tree_root(issues, selected, x) {
        Set::new(|x: Seq<char>| is_tree_root(issues, selected, x))
    } else {
        selected
    }
}

/// The number of issues whose identifier is not in `v`.
pub open spec fn count_missing(issues: Seq<IssueData>, v: Seq<Seq<char>>) -> nat
    decreases issues.len(),
{
    if issues.len() == 0 {
        0
    } else {
        count_missing(issues.drop_last(), v) + if v.contains(issues.last().identifier@) {
            0nat
        } else {
            1nat
        }
    }
}

proof fn lemma_count_missing(issues: Seq<IssueData>, v: Seq<Seq<char>>, c: Seq<char>)
    requires
        !v.contains(c),
    ensures
        count_missing(issues, v) <= issues.len(),
        count_missing(issues, v.push(c)) <= count_missing(issues, v),
        is_issue_id(issues, c) ==> count_missing(issues, v.push(c)) < count_missing(issues, v),
    decreases issues.len(),
{
    if issues.len() > 0 {
        let d = issues.drop_last();
        lemma_count_missing(d, v, c);
        let y = issues.last().identifier@;
        if v.contains(y) {
            assert(v.push(c).contains(y)) by {
                let j = choose|j: int| 0 <= j < v.len() && v[j] == y;
                assert(v.push(c)[j] == y);
            }
        }
        if v.push(c).contains(y) && y != c {
            let j = choose|j: int| 0 <= j < v.push(c).len() && v.push(c)[j] == y;
            assert(v[j] == y);
        }
        if y == c {
            assert(v.push(c)[v.len() as int] == y);
        }
        if is_issue_id(issues, c) && y != c {
            let i = choose|i: int| 0 <= i < issues.len() && (#[trigger] issues[i]).identifier@ == c;
            assert(d[i].identifier@ == c);
        }
    }
}

proof fn lemma_up_shift(issues: Seq<IssueData>, a: Seq<char>, j: nat, k: nat, t: nat)
    requires
        up_n(issues, a, j) == up_n(issues, a, k),
    ensures
        up_n(issues, a, j + t) == up_n(issues, a, k + t),
    decreases t,
{
    if t > 0 {
        lemma_up_shift(issues, a, j, k, (t - 1) as nat);
        assert(up_n(issues, a, j + t) == match up_n(issues, a, (j + t - 1) as nat) {
            Some(x) => step_up(issues, x),
            None => None,
        });
        assert(up_n(issues, a, k + t) == match up_n(issues, a, (k + t - 1) as nat) {
            Some(x) => step_up(issues, x),
            None => None,
        });
    }
}

proof fn lemma_up_cycle(issues: Seq<IssueData>, a: Seq<char>, j: nat, k: nat, m: nat) -> (m2: nat)
    requires
        j < k,
        up_n(issues, a, j) == up_n(issues, a, k),
    ensures
        m2 < k,
        up_n(issues, a, m) == up_n(issues, a, m2),
    decreases m,
{
    if m < k {
        m
    } else {
        let d = (m - k) as nat;
        lemma_up_shift(issues, a, j, k, d);
        lemma_up_cycle(issues, a, j, k, j + d)
    }
}

proof fn lemma_up_none(issues: Seq<IssueData>, a: Seq<char>, k: nat, m: nat)
    requires
        up_n(issues, a, k) is None,
        k <= m,
    ensures
        up_n(issues, a, m) is None,
    decreases m - k,
{
    if m > k {
        lemma_up_none(issues, a, k, (m - 1) as nat);
    }
}

fn last_issue_with_id(issues: &[IssueData], x: &str) -> (r: Option<usize>)
    ensures
        match r {
            Some(i) => i == last_with_id(issues@, x@) && i < issues@.len(),
            None => last_with_id(issues@, x@) == -1,
        },
        (last_with_id(issues@, x@) >= 0) == is_issue_id(issues@, x@),
{
    let mut i: usize = issues.len();
    while i > 0
        invariant
            i <= issues@.len(),
            forall|j: int| i <= j < issues@.len() ==> (#[trigger] issues@[j]).identifier@ != x@,
        decreases i,
    {
        if equals(&issues[i - 1].identifier, x) {
            proof {
                lemma_last_with_id(issues@, x@, i - 1);
            }
            return Some(i - 1);
        }
        i -= 1;
    }
    proof {
        lemma_last_with_id(issues@, x@, -1);
    }
    None
}

fn step_up_exec(issues: &[IssueData], x: &str) -> (r: Option<String>)
    ensures
        opt_text_view(r) == step_up(issues@, x@),
{
    match last_issue_with_id(issues, x) {
        Some(i) => match &issues[i].parent {
            Some(p) => {
                if last_issue_with_id(issues, p).is_some() {
                    Some(p.clone())
                } else {
                    None
                }
            },
            None => None,
        },
        None => None,
    }
}

fn push_string(v: &mut Vec<String>, x: &String)
    ensures
        final(v).deep_view() == old(v).deep_view().push(x@),
        final(v)@.len() == old(v)@.len() + 1,
{
    let ghost before = v.deep_view();
    v.push(x.clone());
    assert(v.deep_view() =~= before.push(x@));
}

proof fn lemma_push_contains(v: Seq<Seq<char>>, c: Seq<char>, y: Seq<char>)
    ensures
        v.push(c).contains(y) <==> (v.contains(y) || y == c),
{
    if v.contains(y) {
        let j = choose|j: int| 0 <= j < v.len() && v[j] == y;
        assert(v.push(c)[j] == y);
    }
    if y == c {
        assert(v.push(c)[v.len() as int] == y);
    }
    if v.push(c).contains(y) && y != c {
        let j = choose|j: int| 0 <= j < v.push(c).len() && v.push(c)[j] == y;
        assert(v[j] == y);
    }
}

proof fn lemma_push_no_dups(v: Seq<Seq<char>>, c: Seq<char>)
    requires
        v.no_duplicates(),
        !v.contains(c),
    ensures
        v.push(c).no_duplicates(),
{
    assert forall|i: int, j: int| 0 <= i < v.push(c).len() && 0 <= j < v.push(c).len() && i != j implies v.push(c)[i]
        != v.push(c)[j] by {
        if i < v.len() && j < v.len() {
        } else if i < v.len() {
            assert(v.contains(v[i]));
        } else if j < v.len() {
            assert(v.contains(v[j]));
        }
    }
}

/// Add `start` and its ancestors to `selected`.
fn add_ancestors(issues: &[IssueData], start: &String, selected: &mut Vec<String>)
    requires
        old(selected).deep_view().no_duplicates(),
        is_issue_id(issues@, start@),
    ensures
        final(selected).deep_view().no_duplicates(),
        forall|y: Seq<char>| old(selected).deep_view().contains(y) ==> final(selected).deep_view().contains(y),
        forall|y: Seq<char>|
            final(selected).deep_view().contains(y) ==> old(selected).deep_view().contains(y) || is_ancestor_or_self(
                issues@,
                start@,
                y,
            ),
        forall|n: nat|
            #[trigger] up_n(issues@, start@, n) is Some ==> final(selected).deep_view().contains(
                up_n(issues@, start@, n)->0,
            ),
{
    let ghost sel0 = selected.deep_view();
    let ghost a = start@;
    let mut visited: Vec<String> = Vec::new();
    let mut current: String = start.clone();
    let ghost mut k: nat = 0;
    assert(visited.deep_view() =~= Seq::<Seq<char>>::empty());
    proof {
        lemma_count_missing(issues@, Seq::<Seq<char>>::empty(), a);
    }
    loop
        invariant_except_break
            visited.deep_view().len() == k,
            visited@.len() == k,
            forall|t: int| 0 <= t < k ==> up_n(issues@, a, t as nat) == Some(#[trigger] visited.deep_view()[t]),
            up_n(issues@, a, k) == Some(current@),
            is_issue_id(issues@, current@),
            visited.deep_view().no_duplicates(),
            count_missing(issues@, visited.deep_view()) + visited.deep_view().len() <= issues@.len(),
        invariant
            selected.deep_view().no_duplicates(),
            forall|y: Seq<char>| sel0.contains(y) ==> selected.deep_view().contains(y),
            forall|y: Seq<char>|
                selected.deep_view().contains(y) ==> sel0.contains(y) || is_ancestor_or_self(issues@, a, y),
            forall|t: int| 0 <= t < visited.deep_view().len() ==> selected.deep_view().contains(#[trigger] visited.deep_view()[t]),
        ensures
            forall|n: nat| #[trigger] up_n(issues@, a, n) is Some ==> selected.deep_view().contains(up_n(issues@, a, n)->0),
        decreases issues@.len() - visited@.len(),
    {
        if contains_str(&visited, &current) {
            proof {
                let j = choose|j: int| 0 <= j < visited.deep_view().len() && visited.deep_view()[j] == current@;
                assert forall|n: nat| #[trigger] up_n(issues@, a, n) is Some implies selected.deep_view().contains(up_n(issues@, a, n)->0) by {
                    let m2 = lemma_up_cycle(issues@, a, j as nat, k, n);
                    assert(visited.deep_view()[m2 as int] == up_n(issues@, a, n)->0);
                }
            }
            break;
        }
        proof {
            lemma_count_missing(issues@, visited.deep_view(), current@);
            lemma_push_no_dups(visited.deep_view(), current@);
        }
        let ghost vis_before = visited.deep_view();
        push_string(&mut visited, &current);
        let ghost sel_start = selected.deep_view();
        let in_selected = contains_str(selected, &current);
        if !in_selected {
            let ghost sel_before = selected.deep_view();
            push_string(selected, &current);
            proof {
                lemma_push_no_dups(sel_before, current@);
                assert forall|y: Seq<char>| selected.deep_view().contains(y) implies sel0.contains(y) || is_ancestor_or_self(issues@, a, y) by {
                    lemma_push_contains(sel_before, current@, y);
                }
                assert forall|y: Seq<char>| sel_before.contains(y) implies selected.deep_view().contains(y) by {
                    lemma_push_contains(sel_before, current@, y);
                }
            }
        }
        proof {
            if !in_selected {
                lemma_push_contains(sel_start, current@, current@);
            }
            assert(selected.deep_view().contains(current@));
            assert forall|t: int| 0 <= t < visited.deep_view().len() implies selected.deep_view().contains(#[trigger] visited.deep_view()[t]) by {
                if t < vis_before.len() {
                    assert(visited.deep_view()[t] == vis_before[t]);
                    if !in_selected {
                        lemma_push_contains(sel_start, current@, vis_before[t]);
                    }
                } else {
                    assert(visited.deep_view()[t] == current@);
                }
            }
            assert forall|t: int| 0 <= t < k + 1 implies up_n(issues@, a, t as nat) == Some(#[trigger] visited.deep_view()[t]) by {
                if t < k {
                    assert(visited.deep_view()[t] == vis_before[t]);
                }
            }
        }
        match step_up_exec(issues, &current) {
            Some(p) => {
                proof {
                    assert(up_n(issues@, a, k + 1) == Some(p@));
                    k = k + 1;
                }
                current = p;
            },
            None => {
                proof {
                    assert(up_n(issues@, a, k + 1) is None);
                    assert forall|n: nat| #[trigger] up_n(issues@, a, n) is Some implies selected.deep_view().contains(up_n(issues@, a, n)->0) by {
                        if n > k {
                            lemma_up_none(issues@, a, k + 1, n);
                        } else {
                            assert(visited.deep_view()[n as int] == up_n(issues@, a, n)->0);
                        }
                    }
                }
                break;
            },
        }
    }
}

/// Close `initial` under children: add every issue below a selected one.
fn close_downward(issues: &[IssueData], initial: Vec<String>) -> (r: Vec<String>)
    requires
        initial.deep_view().no_duplicates(),
    ensures
        r.deep_view().no_duplicates(),
        forall|y: Seq<char>| initial.deep_view().contains(y) ==> r.deep_view().contains(y),
        forall|y: Seq<char>, i: int|
            #![trigger r.deep_view().contains(y), issues@[i]]
            r.deep_view().contains(y) && 0 <= i < issues@.len() && opt_text_view(issues@[i].parent) == Some(y)
                ==> r.deep_view().contains(issues@[i].identifier@),
        forall|y: Seq<char>| r.deep_view().contains(y) ==> reachable_from(issues@, initial.deep_view(), y),
{
    let ghost init = initial.deep_view();
    let mut selected = initial;
    let mut pending = copy_strings(&selected);
    proof {
        assert forall|y: Seq<char>| selected.deep_view().contains(y) implies reachable_from(issues@, init, y) by {
            let p = seq![y];
            assert(is_down_path(issues@, p));
        }
        if selected.deep_view().len() > 0 {
            lemma_count_missing(issues@, selected.deep_view().drop_last(), selected.deep_view().last());
        }
        lemma_count_missing_bound(issues@, selected.deep_view());
    }
    while pending.len() > 0
        invariant
            selected.deep_view().no_duplicates(),
            pending.deep_view().no_duplicates(),
            forall|y: Seq<char>| pending.deep_view().contains(y) ==> selected.deep_view().contains(y),
            forall|y: Seq<char>| init.contains(y) ==> selected.deep_view().contains(y),
            forall|y: Seq<char>, i: int|
                #![trigger selected.deep_view().contains(y), issues@[i]]
                selected.deep_view().contains(y) && !pending.deep_view().contains(y) && 0 <= i < issues@.len()
                    && opt_text_view(issues@[i].parent) == Some(y) ==> selected.deep_view().contains(
                    issues@[i].identifier@,
                ),
            forall|y: Seq<char>| selected.deep_view().contains(y) ==> reachable_from(issues@, init, y),
            pending@.len() == pending.deep_view().len(),
        decreases 2 * count_missing(issues@, selected.deep_view()) + pending@.len(),
    {
        let ghost measure0 = 2 * count_missing(issues@, selected.deep_view()) + pending@.len();
        let ghost pend_before = pending.deep_view();
        let x = pending.pop().unwrap();
        proof {
            assert(pending.deep_view() =~= pend_before.drop_last());
            assert(pend_before.last() == x@);
            assert(!pending.deep_view().contains(x@)) by {
                if pending.deep_view().contains(x@) {
                    let j = choose|j: int| 0 <= j < pending.deep_view().len() && pending.deep_view()[j] == x@;
                    assert(pend_before[j] == pend_before[pend_before.len() - 1]);
                }
            }
            assert forall|y: Seq<char>| pending.deep_view().contains(y) implies selected.deep_view().contains(y) by {
                let j = choose|j: int| 0 <= j < pending.deep_view().len() && pending.deep_view()[j] == y;
                assert(pend_before[j] == y);
            }
            assert(pending.deep_view().no_duplicates());
            assert(pend_before[pend_before.len() - 1] == x@);
            assert forall|y: Seq<char>| pend_before.contains(y) && y != x@ implies pending.deep_view().contains(y) by {
                let j = choose|j: int| 0 <= j < pend_before.len() && pend_before[j] == y;
                assert(pending.deep_view()[j] == y);
            }
            assert(selected.deep_view().contains(x@));
        }
        let mut i: usize = 0;
        while i < issues.len()
            invariant
                i <= issues@.len(),
                selected.deep_view().no_duplicates(),
                pending.deep_view().no_duplicates(),
                pending@.len() == pending.deep_view().len(),
                forall|y: Seq<char>| pending.deep_view().contains(y) ==> selected.deep_view().contains(y),
                forall|y: Seq<char>| init.contains(y) ==> selected.deep_view().contains(y),
                selected.deep_view().contains(x@),
                !pending.deep_view().contains(x@),
                forall|y: Seq<char>, j: int|
                    #![trigger selected.deep_view().contains(y), issues@[j]]
                    selected.deep_view().contains(y) && !pending.deep_view().contains(y) && y != x@ && 0 <= j
                        < issues@.len() && opt_text_view(issues@[j].parent) == Some(y)
                        ==> selected.deep_view().contains(issues@[j].identifier@),
                forall|j: int|
                    0 <= j < i && opt_text_view(#[trigger] issues@[j].parent) == Some(x@) ==> selected.deep_view().contains(
                        issues@[j].identifier@,
                    ),
                forall|y: Seq<char>| selected.deep_view().contains(y) ==> reachable_from(issues@, init, y),
                2 * count_missing(issues@, selected.deep_view()) + pending@.len() < measure0,
            decreases issues@.len() - i,
        {
            let is_child_of_x = match &issues[i].parent {
                Some(p) => equals(p, &x),
                None => false,
            };
            if is_child_of_x && !contains_str(&selected, &issues[i].identifier) {
                let c = &issues[i].identifier;
                let ghost sel_before = selected.deep_view();
                let ghost pend_b = pending.deep_view();
                proof {
                    lemma_count_missing(issues@, sel_before, c@);
                    assert(is_issue_id(issues@, c@)) by {
                        assert(issues@[i as int].identifier@ == c@);
                    }
                    lemma_push_no_dups(sel_before, c@);
                    assert(!pend_b.contains(c@));
                    lemma_push_no_dups(pend_b, c@);
                    let px = choose|px: Seq<Seq<char>>| #[trigger] is_down_path(issues@, px) && init.contains(px[0]) && px.last() == x@;
                    let pc = px.push(c@);
                    assert(is_child(issues@, x@, c@)) by {
                        assert(issues@[i as int].identifier@ == c@);
                    }
                    assert forall|k: int| 0 <= k < pc.len() - 1 implies is_child(issues@, #[trigger] pc[k], pc[k + 1]) by {
                        if k < px.len() - 1 {
                            assert(pc[k] == px[k] && pc[k + 1] == px[k + 1]);
                        }
                    }
                    assert(is_down_path(issues@, pc));
                    assert(pc[0] == px[0]);
                }
                push_string(&mut selected, c);
                push_string(&mut pending, c);
                proof {
                    assert forall|y: Seq<char>| selected.deep_view().contains(y) implies reachable_from(issues@, init, y) by {
                        lemma_push_contains(sel_before, c@, y);
                        if y == c@ {
                            let px = choose|px: Seq<Seq<char>>| #[trigger] is_down_path(issues@, px) && init.contains(px[0]) && px.last() == x@;
                            let pc = px.push(c@);
                            assert forall|k: int| 0 <= k < pc.len() - 1 implies is_child(issues@, #[trigger] pc[k], pc[k + 1]) by {
                                if k < px.len() - 1 {
                                    assert(pc[k] == px[k] && pc[k + 1] == px[k + 1]);
                                } else {
                                    assert(issues@[i as int].identifier@ == c@);
                                }
                            }
                            assert(is_down_path(issues@, pc));
                        }
                    }
                    assert forall|y: Seq<char>| pending.deep_view().contains(y) implies selected.deep_view().contains(y) by {
                        lemma_push_contains(pend_b, c@, y);
                        lemma_push_contains(sel_before, c@, y);
                    }
                    assert forall|y: Seq<char>| init.contains(y) implies selected.deep_view().contains(y) by {
                        lemma_push_contains(sel_before, c@, y);
                    }
                    assert(selected.deep_view().contains(x@)) by {
                        lemma_push_contains(sel_before, c@, x@);
                    }
                    assert(!pending.deep_view().contains(x@)) by {
                        lemma_push_contains(pend_b, c@, x@);
                    }
                    assert forall|y: Seq<char>, j: int|
                        #![trigger selected.deep_view().contains(y), issues@[j]]
                        selected.deep_view().contains(y) && !pending.deep_view().contains(y) && y != x@ && 0 <= j
                            < issues@.len() && opt_text_view(issues@[j].parent) == Some(y)
                            implies selected.deep_view().contains(issues@[j].identifier@) by {
                        lemma_push_contains(sel_before, c@, y);
                        lemma_push_contains(pend_b, c@, y);
                        lemma_push_contains(sel_before, c@, issues@[j].identifier@);
                    }
                    assert forall|j: int|
                        0 <= j < i + 1 && opt_text_view(#[trigger] issues@[j].parent) == Some(x@)
                            implies selected.deep_view().contains(issues@[j].identifier@) by {
                        lemma_push_contains(sel_before, c@, issues@[j].identifier@);
                    }
                }
            }
            i += 1;
        }
    }
    selected
}

proof fn lemma_count_missing_bound(issues: Seq<IssueData>, v: Seq<Seq<char>>)
    ensures
        count_missing(issues, v) <= issues.len(),
    decreases issues.len(),
{
    if issues.len() > 0 {
        lemma_count_missing_bound(issues.drop_last(), v);
    }
}

/// Whether `y` is an active issue or an ancestor of one.
pub open spec fn is_active_ancestor(issues: Seq<IssueData>, status: Seq<char>, y: Seq<char>) -> bool {
    exists|a: Seq<char>| #[trigger] is_active(issues, a, status) && is_ancestor_or_self(issues, a, y)
}

proof fn lemma_path_closed(issues: Seq<IssueData>, sel: Seq<Seq<char>>, p: Seq<Seq<char>>, k: int)
    requires
        is_down_path(issues, p),
        0 <= k < p.len(),
        sel.contains(p[0]),
        forall|y: Seq<char>, i: int|
            #![trigger sel.contains(y), issues[i]]
            sel.contains(y) && 0 <= i < issues.len() && opt_text_view(issues[i].parent) == Some(y) ==> sel.contains(
                issues[i].identifier@,
            ),
    ensures
        sel.contains(p[k]),
    decreases k,
{
    if k > 0 {
        lemma_path_closed(issues, sel, p, k - 1);
        assert(is_child(issues, p[k - 1], p[k]));
        let i = choose|i: int|
            0 <= i < issues.len() && (#[trigger] issues[i]).identifier@ == p[k] && opt_text_view(issues[i].parent)
                == Some(p[k - 1]);
        assert(sel.contains(p[k - 1]));
    }
}

/// The active issues and their ancestors.
fn select_active_ancestors(issues: &[IssueData], active_status: &str) -> (selected: Vec<String>)
    ensures
        selected.deep_view().no_duplicates(),
        forall|y: Seq<char>| selected.deep_view().contains(y) ==> is_active_ancestor(issues@, active_status@, y),
        forall|j: int, n: nat|
            0 <= j < issues@.len() && issues@[j].status@ == active_status@ && #[trigger] up_n(
                issues@,
                issues@[j].identifier@,
                n,
            ) is Some ==> selected.deep_view().contains(up_n(issues@, issues@[j].identifier@, n)->0),
{
    let ghost status = active_status@;
    let mut selected: Vec<String> = Vec::new();
    assert(selected.deep_view() =~= Seq::<Seq<char>>::empty());
    let mut i: usize = 0;
    while i < issues.len()
        invariant
            i <= issues@.len(),
            status == active_status@,
            selected.deep_view().no_duplicates(),
            forall|y: Seq<char>| selected.deep_view().contains(y) ==> is_active_ancestor(issues@, status, y),
            forall|j: int, n: nat|
                0 <= j < i && issues@[j].status@ == status && #[trigger] up_n(issues@, issues@[j].identifier@, n)
                    is Some ==> selected.deep_view().contains(up_n(issues@, issues@[j].identifier@, n)->0),
        decreases issues@.len() - i,
    {
        let issue = &issues[i];
        if equals(&issue.status, active_status) {
            let ghost before = selected.deep_view();
            proof {
                assert(issues@[i as int] == *issue);
                assert(is_issue_id(issues@, issue.identifier@));
                assert(is_active(issues@, issue.identifier@, status));
            }
            add_ancestors(issues, &issue.identifier, &mut selected);
            proof {
                assert forall|y: Seq<char>| selected.deep_view().contains(y) implies is_active_ancestor(issues@, status, y) by {
                    if !before.contains(y) {
                        assert(is_active(issues@, issue.identifier@, status));
                        assert(is_ancestor_or_self(issues@, issue.identifier@, y));
                    }
                }
                assert forall|j: int, n: nat|
                    0 <= j < i + 1 && issues@[j].status@ == status && #[trigger] up_n(issues@, issues@[j].identifier@, n)
                        is Some implies selected.deep_view().contains(up_n(issues@, issues@[j].identifier@, n)->0) by {
                    if j < i {
                        assert(before.contains(up_n(issues@, issues@[j].identifier@, n)->0));
                    } else {
                        assert(issues@[j] == *issue);
                    }
                }
            }
        }
        i += 1;
    }
    selected
}

/// The selected identifiers that are roots, in the order of `closed`.
fn tree_root_list(issues: &[IssueData], closed: &Vec<String>) -> (roots: Vec<String>)
    requires
        closed.deep_view().no_duplicates(),
    ensures
        roots.deep_view().no_duplicates(),
        roots.deep_view().to_set() == tree_roots(issues@, closed.deep_view().to_set()),
{
    let ghost sel_set = closed.deep_view().to_set();
    let mut roots: Vec<String> = Vec::new();
    assert(roots.deep_view() =~= Seq::<Seq<char>>::empty());
    let mut k: usize = 0;
    while k < closed.len()
        invariant
            k <= closed@.len(),
            sel_set == closed.deep_view().to_set(),
            closed.deep_view().no_duplicates(),
            roots.deep_view().no_duplicates(),
            forall|x: Seq<char>|
                roots.deep_view().contains(x) <==> (exists|t: int| 0 <= t < k && #[trigger] closed.deep_view()[t] == x)
                    && is_tree_root(issues@, sel_set, x),
        decreases closed@.len() - k,
    {
        let x = &closed[k];
        let root = match last_issue_with_id(issues, x) {
            Some(j) => match &issues[j].parent {
                Some(p) => !contains_str(closed, p),
                None => true,
            },
            None => true,
        };
        proof {
            assert(closed.deep_view()[k as int] == x@);
            assert(sel_set.contains(x@));
            assert forall|q: Seq<char>| closed.deep_view().contains(q) <==> sel_set.contains(q) by {}
            assert(root == is_tree_root(issues@, sel_set, x@));
        }
        let ghost before = roots.deep_view();
        if root {
            proof {
                if before.contains(x@) {
                    let t = choose|t: int| 0 <= t < k && #[trigger] closed.deep_view()[t] == x@;
                    assert(closed.deep_view()[t] == closed.deep_view()[k as int]);
                }
                lemma_push_no_dups(before, x@);
            }
            push_string(&mut roots, x);
        }
        proof {
            assert forall|y: Seq<char>|
                roots.deep_view().contains(y) <==> (exists|t: int| 0 <= t < k + 1 && #[trigger] closed.deep_view()[t] == y)
                    && is_tree_root(issues@, sel_set, y) by {
                if root {
                    lemma_push_contains(before, x@, y);
                }
                if (exists|t: int| 0 <= t < k + 1 && #[trigger] closed.deep_view()[t] == y) && y != x@ {
                    let t = choose|t: int| 0 <= t < k + 1 && #[trigger] closed.deep_view()[t] == y;
                    assert(t < k);
                }
                if y == x@ {
                    assert(closed.deep_view()[k as int] == y);
                }
            }
        }
        k += 1;
    }
    proof {
        assert forall|x: Seq<char>| roots.deep_view().contains(x) <==> is_tree_root(issues@, sel_set, x) by {
            if is_tree_root(issues@, sel_set, x) {
                let t = choose|t: int| 0 <= t < closed.deep_view().len() && closed.deep_view()[t] == x;
                assert(closed.deep_view()[t] == x);
            }
        }
    }
    if roots.len() == 0 && closed.len() > 0 {
        proof {
            assert(!exists|x: Seq<char>| is_tree_root(issues@, sel_set, x)) by {
                if exists|x: Seq<char>| is_tree_root(issues@, sel_set, x) {
                    let x = choose|x: Seq<char>| is_tree_root(issues@, sel_set, x);
                    assert(roots.deep_view().contains(x));
                }
            }
        }
        let all = copy_strings(closed);
        proof {
            assert(all.deep_view().to_set() =~= tree_roots(issues@, sel_set));
        }
        return all;
    }
    proof {
        if roots.deep_view().len() > 0 {
            assert(roots.deep_view().contains(roots.deep_view()[0]));
            assert(is_tree_root(issues@, sel_set, roots.deep_view()[0]));
            assert(roots.deep_view().to_set() =~= tree_roots(issues@, sel_set));
        } else {
            assert(closed.deep_view().len() == 0);
            assert(sel_set =~= Set::<Seq<char>>::empty());
            assert(!exists|x: Seq<char>| is_tree_root(issues@, sel_set, x));
            assert(roots.deep_view().to_set() =~= tree_roots(issues@, sel_set));
        }
    }
    roots
}

proof fn lemma_selected_in_tree(issues: Seq<IssueData>, status: Seq<char>, stage1: Seq<Seq<char>>, y: Seq<char>)
    requires
        forall|x: Seq<char>| stage1.contains(x) ==> is_active_ancestor(issues, status, x),
        reachable_from(issues, stage1, y),
    ensures
        in_active_tree(issues, status, y),
{
    let p = choose|p: Seq<Seq<char>>| #[trigger] is_down_path(issues, p) && stage1.contains(p[0]) && p.last() == y;
    assert(is_active_ancestor(issues, status, p[0]));
    let a = choose|a: Seq<char>| #[trigger] is_active(issues, a, status) && is_ancestor_or_self(issues, a, p[0]);
    assert(is_active(issues, a, status) && is_ancestor_or_self(issues, a, p[0]) && is_down_path(issues, p));
}

proof fn lemma_tree_in_selected(
    issues: Seq<IssueData>,
    status: Seq<char>,
    stage1: Seq<Seq<char>>,
    closed: Seq<Seq<char>>,
    y: Seq<char>,
)
    requires
        forall|j: int, n: nat|
            0 <= j < issues.len() && issues[j].status@ == status && #[trigger] up_n(issues, issues[j].identifier@, n)
                is Some ==> stage1.contains(up_n(issues, issues[j].identifier@, n)->0),
        forall|x: Seq<char>| stage1.contains(x) ==> closed.contains(x),
        forall|x: Seq<char>, i: int|
            #![trigger closed.contains(x), issues[i]]
            closed.contains(x) && 0 <= i < issues.len() && opt_text_view(issues[i].parent) == Some(x)
                ==> closed.contains(issues[i].identifier@),
        in_active_tree(issues, status, y),
    ensures
        closed.contains(y),
{
    let (a, u, p) = choose|a: Seq<char>, u: Seq<char>, p: Seq<Seq<char>>|
        #![trigger is_active(issues, a, status), is_ancestor_or_self(issues, a, u), is_down_path(issues, p)]
        is_active(issues, a, status) && is_ancestor_or_self(issues, a, u) && is_down_path(issues, p) && p[0] == u
            && p.last() == y;
    let j = choose|j: int| 0 <= j < issues.len() && (#[trigger] issues[j]).identifier@ == a && issues[j].status@ == status;
    let n = choose|n: nat| up_n(issues, a, n) == Some(u);
    assert(up_n(issues, issues[j].identifier@, n) is Some);
    assert(stage1.contains(u));
    lemma_path_closed(issues, closed, p, p.len() - 1);
}

/// The roots and the complete visible set of the trees that hold active
/// work: every issue with the status `active_status`, its ancestors, and
/// everything below those. The roots are the selected issues without a
/// selected parent (all selected issues when a cycle leaves none), sorted.
pub fn active_right_now_tree(issues: &[IssueData], active_status: &str) -> (r: (Vec<String>, Vec<String>))
    ensures
        r.1.deep_view().no_duplicates(),
        forall|y: Seq<char>| r.1.deep_view().contains(y) <==> in_active_tree(issues@, active_status@, y),
        strictly_sorted(r.0.deep_view()),
        r.0.deep_view().to_set() == tree_roots(issues@, r.1.deep_view().to_set()),
{
    let ghost status = active_status@;
    let selected = select_active_ancestors(issues, active_status);
    let ghost stage1 = selected.deep_view();
    let closed = close_downward(issues, selected);
    proof {
        assert forall|y: Seq<char>| closed.deep_view().contains(y) <==> in_active_tree(issues@, status, y) by {
            if closed.deep_view().contains(y) {
                lemma_selected_in_tree(issues@, status, stage1, y);
            }
            if in_active_tree(issues@, status, y) {
                lemma_tree_in_selected(issues@, status, stage1, closed.deep_view(), y);
            }
        }
    }
    let roots = tree_root_list(issues, &closed);
    let sorted = sort_distinct_strings(roots);
    (sorted, closed)
}

/// The trees of active work hold every active issue, and with each issue
/// every issue below it: a child of a selected issue is selected too.
pub proof fn lemma_active_tree_is_closed(issues: Seq<IssueData>, status: Seq<char>, x: Seq<char>, y: Seq<char>)
    ensures
        is_active(issues, x, status) ==> in_active_tree(issues, status, x),
        in_active_tree(issues, status, x) && is_child(issues, x, y) ==> in_active_tree(issues, status, y),
{
    if is_active(issues, x, status) {
        assert(up_n(issues, x, 0) == Some(x));
        assert(is_ancestor_or_self(issues, x, x));
        let p = seq![x];
        assert(is_down_path(issues, p));
        assert(is_active(issues, x, status) && is_ancestor_or_self(issues, x, x) && is_down_path(issues, p));
    }
    if in_active_tree(issues, status, x) && is_child(issues, x, y) {
        let (a, u, p) = choose|a: Seq<char>, u: Seq<char>, p: Seq<Seq<char>>|
            #![trigger is_active(issues, a, status), is_ancestor_or_self(issues, a, u), is_down_path(issues, p)]
            is_active(issues, a, status) && is_ancestor_or_self(issues, a, u) && is_down_path(issues, p) && p[0] == u
                && p.last() == x;
        let q = p.push(y);
        assert forall|k: int| 0 <= k < q.len() - 1 implies is_child(issues, #[trigger] q[k], q[k + 1]) by {
            if k < p.len() - 1 {
                assert(q[k] == p[k] && q[k + 1] == p[k + 1]);
            }
        }
        assert(is_down_path(issues, q));
        assert(q[0] == u && q.last() == y);
    }
}

proof fn lemma_up_n_in_set(issues: Seq<IssueData>, s: Set<Seq<char>>, a: Seq<char>, n: nat)
    requires
        s.contains(a),
        forall|x: Seq<char>| #[trigger] s.contains(x) && step_up(issues, x) is Some ==> s.contains(
            step_up(issues, x)->0,
        ),
    ensures
        up_n(issues, a, n) matches Some(x) ==> s.contains(x),
    decreases n,
{
    if n > 0 {
        lemma_up_n_in_set(issues, s, a, (n - 1) as nat);
    }
}

proof fn lemma_down_path_in_set(issues: Seq<IssueData>, s: Set<Seq<char>>, p: Seq<Seq<char>>, k: int)
    requires
        is_down_path(issues, p),
        0 <= k < p.len(),
        s.contains(p[0]),
        forall|x: Seq<char>, z: Seq<char>| #[trigger] is_child(issues, x, z) && s.contains(x) ==> s.contains(z),
    ensures
        s.contains(p[k]),
    decreases k,
{
    if k > 0 {
        lemma_down_path_in_set(issues, s, p, k - 1);
        assert(is_child(issues, p[k - 1], p[k]));
    }
}

/// The trees of active work are the least set that holds every active issue
/// and is closed under taking an issue's parent (when it is an issue) and
/// under taking children: every such set holds all of them.
pub proof fn lemma_active_tree_is_least(issues: Seq<IssueData>, status: Seq<char>, s: Set<Seq<char>>, y: Seq<char>)
    requires
        forall|a: Seq<char>| #[trigger] is_active(issues, a, status) ==> s.contains(a),
        forall|x: Seq<char>| #[trigger] s.contains(x) && step_up(issues, x) is Some ==> s.contains(
            step_up(issues, x)->0,
        ),
        forall|x: Seq<char>, z: Seq<char>| #[trigger] is_child(issues, x, z) && s.contains(x) ==> s.contains(z),
        in_active_tree(issues, status, y),
    ensures
        s.contains(y),
{
    let (a, u, p) = choose|a: Seq<char>, u: Seq<char>, p: Seq<Seq<char>>|
        #![trigger is_active(issues, a, status), is_ancestor_or_self(issues, a, u), is_down_path(issues, p)]
        is_active(issues, a, status) && is_ancestor_or_self(issues, a, u) && is_down_path(issues, p) && p[0] == u
            && p.last() == y;
    let n = choose|n: nat| up_n(issues, a, n) == Some(u);
    lemma_up_n_in_set(issues, s, a, n);
    lemma_down_path_in_set(issues, s, p, p.len() - 1);
}

/// With identifiers that are unique, the trees of active work are closed
/// under taking an issue's parent: the parent of a selected issue, when it
/// is an issue, is selected too.
pub proof fn lemma_active_tree_has_parents(issues: Seq<IssueData>, status: Seq<char>, x: Seq<char>)
    requires
        forall|i: int, j: int|
            0 <= i < j < issues.len() ==> (#[trigger] issues[i]).identifier@ != (#[trigger] issues[j]).identifier@,
        in_active_tree(issues, status, x),
        step_up(issues, x) is Some,
    ensures
        in_active_tree(issues, status, step_up(issues, x)->0),
{
    let q = step_up(issues, x)->0;
    let (a, u, p) = choose|a: Seq<char>, u: Seq<char>, p: Seq<Seq<char>>|
        #![trigger is_active(issues, a, status), is_ancestor_or_self(issues, a, u), is_down_path(issues, p)]
        is_active(issues, a, status) && is_ancestor_or_self(issues, a, u) && is_down_path(issues, p) && p[0] == u
            && p.last() == x;
    if p.len() == 1 {
        let n = choose|n: nat| up_n(issues, a, n) == Some(u);
        assert(up_n(issues, a, n + 1) == Some(q));
        assert(is_ancestor_or_self(issues, a, q));
        let r = seq![q];
        assert(is_down_path(issues, r));
        assert(is_active(issues, a, status) && is_ancestor_or_self(issues, a, q) && is_down_path(issues, r));
    } else {
        let m = p.len() - 2;
        assert(is_child(issues, p[m], p[m + 1]));
        let i = choose|i: int|
            0 <= i < issues.len() && (#[trigger] issues[i]).identifier@ == p[m + 1] && opt_text_view(issues[i].parent)
                == Some(p[m]);
        assert(p[m + 1] == x);
        assert forall|j: int| i < j < issues.len() implies (#[trigger] issues[j]).identifier@ != x by {
            assert(issues[i].identifier@ != issues[j].identifier@);
        }
        lemma_last_with_id(issues, x, i);
        assert(q == p[m]);
        let r = p.drop_last();
        assert forall|k: int| 0 <= k < r.len() - 1 implies is_child(issues, #[trigger] r[k], r[k + 1]) by {
            assert(r[k] == p[k] && r[k + 1] == p[k + 1]);
            assert(is_child(issues, p[k], p[k + 1]));
        }
        assert(is_down_path(issues, r));
        assert(r[0] == u && r.last() == q);
        assert(is_active(issues, a, status) && is_ancestor_or_self(issues, a, u) && is_down_path(issues, r));
    }
}

/// `sorted` with `x` inserted after every issue whose identifier is not
/// greater than its own.
pub open spec fn insert_by_identifier(sorted: Seq<IssueData>, x: IssueData) -> Seq<IssueData>
    decreases sorted.len(),
{
    if sorted.len() == 0 {
        seq![x]
    } else if !str_lt(x.identifier@, sorted.last().identifier@) {
        sorted.push(x)
    } else {
        insert_by_identifier(sorted.drop_last(), x).push(sorted.last())
    }
}

/// The issues stably sorted by identifier.
pub open spec fn sort_by_identifier(issues: Seq<IssueData>) -> Seq<IssueData>
    decreases issues.len(),
{
    if issues.len() == 0 {
        seq![]
    } else {
        insert_by_identifier(sort_by_identifier(issues.drop_last()), issues.last())
    }
}

/// Whether the identifiers never decrease.
pub open spec fn in_identifier_order(issues: Seq<IssueData>) -> bool {
    forall|i: int, j: int|
        0 <= i < j < issues.len() ==> !str_lt((#[trigger] issues[j]).identifier@, (#[trigger] issues[i]).identifier@)
}

proof fn lemma_insert_by_identifier(sorted: Seq<IssueData>, x: IssueData)
    requires
        in_identifier_order(sorted),
    ensures
        in_identifier_order(insert_by_identifier(sorted, x)),
        insert_by_identifier(sorted, x).to_multiset() == sorted.to_multiset().insert(x),
    decreases sorted.len(),
{
    broadcast use vstd::seq_lib::group_to_multiset_ensures;
    if sorted.len() == 0 {
        assert(insert_by_identifier(sorted, x) =~= seq![x]);
        assert(seq![x] =~= Seq::<IssueData>::empty().push(x));
    } else if !str_lt(x.identifier@, sorted.last().identifier@) {
        let r = sorted.push(x);
        assert forall|i: int, j: int| 0 <= i < j < r.len() implies !str_lt(
            (#[trigger] r[j]).identifier@,
            (#[trigger] r[i]).identifier@,
        ) by {
            if j == r.len() - 1 {
                if i < sorted.len() - 1 {
                    assert(!str_lt(sorted.last().identifier@, sorted[i].identifier@));
                }
                lemma_str_le_transitive(r[i].identifier@, sorted.last().identifier@, x.identifier@);
            } else {
                assert(r[i] == sorted[i] && r[j] == sorted[j]);
            }
        }
    } else {
        let last = sorted.last();
        let d = sorted.drop_last();
        assert(in_identifier_order(d));
        lemma_insert_by_identifier(d, x);
        let inner = insert_by_identifier(d, x);
        let r = inner.push(last);
        assert forall|y: IssueData| inner.to_multiset().contains(y) implies !str_lt(last.identifier@, y.identifier@) by {
            assert(d.to_multiset().insert(x).contains(y));
            if y != x {
                assert(d.to_multiset().contains(y));
                assert(d.contains(y));
                let k = choose|k: int| 0 <= k < d.len() && d[k] == y;
                assert(sorted[k] == y);
            } else {
                crate::text::lemma_str_lt_irreflexive_pub(x.identifier@);
                if str_lt(last.identifier@, x.identifier@) {
                    crate::text::lemma_str_lt_transitive(x.identifier@, last.identifier@, x.identifier@);
                }
            }
        }
        assert forall|i: int, j: int| 0 <= i < j < r.len() implies !str_lt(
            (#[trigger] r[j]).identifier@,
            (#[trigger] r[i]).identifier@,
        ) by {
            if j == r.len() - 1 {
                assert(inner.contains(r[i]));
                assert(inner.to_multiset().contains(r[i]));
            } else {
                assert(r[i] == inner[i] && r[j] == inner[j]);
            }
        }
        assert(sorted =~= d.push(last));
    }
}

/// Sorting by identifier orders the issues and keeps each of them, as many
/// times as it occurs.
pub proof fn lemma_sort_by_identifier_orders(issues: Seq<IssueData>)
    ensures
        in_identifier_order(sort_by_identifier(issues)),
        sort_by_identifier(issues).to_multiset() == issues.to_multiset(),
        sort_by_identifier(issues).len() == issues.len(),
    decreases issues.len(),
{
    broadcast use vstd::seq_lib::group_to_multiset_ensures;
    if issues.len() > 0 {
        let d = issues.drop_last();
        lemma_sort_by_identifier_orders(d);
        lemma_insert_by_identifier(sort_by_identifier(d), issues.last());
        assert(issues =~= d.push(issues.last()));
    }
    assert(sort_by_identifier(issues).len() == sort_by_identifier(issues).to_multiset().len());
}

fn insert_issue_by_identifier(sorted: Vec<IssueData>, x: IssueData) -> (r: Vec<IssueData>)
    ensures
        r@ == insert_by_identifier(sorted@, x),
    decreases sorted@.len(),
{
    let mut v = sorted;
    if v.len() == 0 {
        v.push(x);
        return v;
    }
    if !str_less(x.identifier.as_str(), v[v.len() - 1].identifier.as_str()) {
        v.push(x);
        return v;
    }
    let ghost before = v@;
    let last = v.pop().unwrap();
    assert(v@ =~= before.drop_last());
    let mut r = insert_issue_by_identifier(v, x);
    r.push(last);
    r
}

/// The issues of a console snapshot: stably sorted by identifier.
pub fn sort_issues_by_identifier(issues: Vec<IssueData>) -> (r: Vec<IssueData>)
    ensures
        r@ == sort_by_identifier(issues@),
        in_identifier_order(r@),
        r@.to_multiset() == issues@.to_multiset(),
{
    let ghost all = issues@;
    let mut sorted: Vec<IssueData> = Vec::new();
    let mut rest = issues;
    let mut k: usize = 0;
    let n = rest.len();
    assert(all.subrange(0, 0) =~= Seq::<IssueData>::empty());
    while k < n
        invariant
            n == all.len(),
            k <= n,
            rest@ == all.subrange(k as int, n as int),
            sorted@ == sort_by_identifier(all.subrange(0, k as int)),
        decreases n - k,
    {
        let x = rest.remove(0);
        assert(rest@ =~= all.subrange(k + 1, n as int));
        assert(all.subrange(0, k + 1).drop_last() =~= all.subrange(0, k as int));
        sorted = insert_issue_by_identifier(sorted, x);
        k += 1;
    }
    assert(all.subrange(0, n as int) =~= all);
    proof {
        lemma_sort_by_identifier_orders(all);
    }
    sorted
}

} // verus!
