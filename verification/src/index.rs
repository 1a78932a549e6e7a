//! The in-memory index of a project's issues: issues grouped by
//! identifier, status, type, parent, label and blocking target.

use vstd::prelude::*;

use crate::dependencies::blocked_by;
use crate::dependencies::blocked_by_text;
use crate::models::DependencyLink;
use crate::models::IssueData;
use crate::text::equals;

verus! {

/// Positions of issues grouped by a key, each key with the positions in
/// the order they were added.
pub type Groups = Vec<(String, Vec<usize>)>;

/// Positions as integers.
pub open spec fn as_ints(v: Seq<usize>) -> Seq<int> {
    v.map_values(|u: usize| u as int)
}

/// The positions of the first group with the key `k`, if any.
pub open spec fn group_of(groups: Seq<(String, Vec<usize>)>, k: Seq<char>) -> Option<Seq<int>>
    decreases groups.len(),
{
    if groups.len() == 0 {
        None
    } else if groups[0].0@ == k {
        Some(as_ints(groups[0].1@))
    } else {
        group_of(groups.drop_first(), k)
    }
}

proof fn lemma_group_of_update(groups: Seq<(String, Vec<usize>)>, j: int, entry: (String, Vec<usize>), k: Seq<char>)
    requires
        0 <= j < groups.len(),
        entry.0@ == groups[j].0@,
        forall|i: int| 0 <= i < j ==> (#[trigger] groups[i]).0@ != entry.0@,
    ensures
        group_of(groups.update(j, entry), k) == if k == entry.0@ {
            Some(as_ints(entry.1@))
        } else {
            group_of(groups, k)
        },
    decreases j,
{
    let updated = groups.update(j, entry);
    if j > 0 {
        assert(updated.drop_first() =~= groups.drop_first().update(j - 1, entry));
        assert forall|i: int| 0 <= i < j - 1 implies (#[trigger] groups.drop_first()[i]).0@ != entry.0@ by {
            assert(groups.drop_first()[i] == groups[i + 1]);
        }
        lemma_group_of_update(groups.drop_first(), j - 1, entry, k);
        assert(updated[0] == groups[0]);
        assert(groups[0].0@ != entry.0@);
    } else {
        assert(updated.drop_first() =~= groups.drop_first());
        assert(updated[0] == entry);
    }
}

proof fn lemma_group_of_push(groups: Seq<(String, Vec<usize>)>, entry: (String, Vec<usize>), k: Seq<char>)
    requires
        forall|i: int| 0 <= i < groups.len() ==> (#[trigger] groups[i]).0@ != entry.0@,
    ensures
        group_of(groups.push(entry), k) == if k == entry.0@ {
            Some(as_ints(entry.1@))
        } else {
            group_of(groups, k)
        },
    decreases groups.len(),
{
    let pushed = groups.push(entry);
    if groups.len() > 0 {
        assert(pushed.drop_first() =~= groups.drop_first().push(entry));
        assert forall|i: int| 0 <= i < groups.drop_first().len() implies (#[trigger] groups.drop_first()[i]).0@ != entry.0@ by {
            assert(groups.drop_first()[i] == groups[i + 1]);
        }
        lemma_group_of_push(groups.drop_first(), entry, k);
        assert(pushed[0] == groups[0]);
        assert(groups[0].0@ != entry.0@);
    } else {
        assert(pushed[0] == entry);
        assert(pushed.drop_first() =~= Seq::<(String, Vec<usize>)>::empty());
        assert(group_of(pushed.drop_first(), k) is None);
    }
}

/// The positions of `key` after `pos` is added to them.
pub open spec fn added(old: Option<Seq<int>>, pos: int) -> Seq<int> {
    match old {
        Some(ps) => ps.push(pos),
        None => seq![pos],
    }
}

fn add_position(groups: &mut Groups, key: &String, pos: usize, replace: bool)
    ensures
        group_of(final(groups)@, key@) == Some(if replace {
            seq![pos as int]
        } else {
            added(group_of(old(groups)@, key@), pos as int)
        }),
        forall|k: Seq<char>| k != key@ ==> #[trigger] group_of(final(groups)@, k) == group_of(old(groups)@, k),
{
    let ghost start = groups@;
    let mut j: usize = 0;
    let mut found = false;
    while j < groups.len()
        invariant_except_break
            !found,
            j <= groups@.len(),
            groups@ == start,
            forall|i: int| 0 <= i < j ==> (#[trigger] start[i]).0@ != key@,
        ensures
            j <= groups@.len(),
            groups@ == start,
            forall|i: int| 0 <= i < j ==> (#[trigger] start[i]).0@ != key@,
            found ==> j < groups@.len() && start[j as int].0@ == key@,
            !found ==> j == groups@.len(),
        decreases groups@.len() - j,
    {
        if equals(&groups[j].0, key) {
            found = true;
            break;
        }
        j += 1;
    }
    if found {
        proof {
            lemma_group_of_first(start, j as int, key@);
        }
        let (k, mut positions) = groups.remove(j);
        let ghost old_positions = positions@;
        if replace {
            positions = Vec::new();
        }
        positions.push(pos);
        let ghost entry = (k, positions);
        groups.insert(j, (k, positions));
        proof {
            assert(groups@ =~= start.update(j as int, entry));
            lemma_group_of_update(start, j as int, entry, key@);
            assert forall|q: Seq<char>| q != key@ implies #[trigger] group_of(groups@, q) == group_of(start, q) by {
                lemma_group_of_update(start, j as int, entry, q);
            }
            if replace {
                assert(as_ints(entry.1@) =~= seq![pos as int]);
            } else {
                assert(as_ints(entry.1@) =~= as_ints(old_positions).push(pos as int));
            }
        }
    } else {
        let mut positions: Vec<usize> = Vec::new();
        positions.push(pos);
        let k = key.clone();
        let ghost entry = (k, positions);
        groups.push((k, positions));
        proof {
            lemma_group_of_absent(start, key@);
            lemma_group_of_push(start, entry, key@);
            assert forall|q: Seq<char>| q != key@ implies #[trigger] group_of(groups@, q) == group_of(start, q) by {
                lemma_group_of_push(start, entry, q);
            }
            assert(as_ints(entry.1@) =~= seq![pos as int]);
        }
    }
}

proof fn lemma_group_of_first(groups: Seq<(String, Vec<usize>)>, j: int, k: Seq<char>)
    requires
        0 <= j < groups.len(),
        groups[j].0@ == k,
        forall|i: int| 0 <= i < j ==> (#[trigger] groups[i]).0@ != k,
    ensures
        group_of(groups, k) == Some(as_ints(groups[j].1@)),
    decreases j,
{
    if j > 0 {
        assert forall|i: int| 0 <= i < j - 1 implies (#[trigger] groups.drop_first()[i]).0@ != k by {
            assert(groups.drop_first()[i] == groups[i + 1]);
        }
        lemma_group_of_first(groups.drop_first(), j - 1, k);
    }
}

proof fn lemma_group_of_absent(groups: Seq<(String, Vec<usize>)>, k: Seq<char>)
    requires
        forall|i: int| 0 <= i < groups.len() ==> (#[trigger] groups[i]).0@ != k,
    ensures
        group_of(groups, k) is None,
    decreases groups.len(),
{
    if groups.len() > 0 {
        assert forall|i: int| 0 <= i < groups.drop_first().len() implies (#[trigger] groups.drop_first()[i]).0@ != k by {
            assert(groups.drop_first()[i] == groups[i + 1]);
        }
        lemma_group_of_absent(groups.drop_first(), k);
    }
}

/// In-memory lookup tables for issues, as positions in `issues`.
pub struct IssueIndex {
    pub issues: Vec<IssueData>,
    pub by_id: Groups,
    pub by_status: Groups,
    pub by_type: Groups,
    pub by_parent: Groups,
    pub by_label: Groups,
    pub reverse_dependencies: Groups,
}

/// The tables of an index that are keyed by a field of each issue.
pub enum KeyKind {
    Status,
    Type,
    Parent,
    Label,
    Blocking,
}

/// How often the text `k` occurs in `items`.
pub open spec fn occurrences(items: Seq<String>, k: Seq<char>) -> nat
    decreases items.len(),
{
    if items.len() == 0 {
        0
    } else {
        occurrences(items.drop_last(), k) + if items.last()@ == k {
            1nat
        } else {
            0nat
        }
    }
}

/// How many of `deps` are blocking dependencies on `k`.
pub open spec fn blocking_count(deps: Seq<DependencyLink>, k: Seq<char>) -> nat
    decreases deps.len(),
{
    if deps.len() == 0 {
        0
    } else {
        blocking_count(deps.drop_last(), k) + if deps.last().dependency_type@ == blocked_by_text()
            && deps.last().target@ == k {
            1nat
        } else {
            0nat
        }
    }
}

/// How many times an issue is listed under the key `k` in the table `kind`.
pub open spec fn key_count(kind: KeyKind, issue: IssueData, k: Seq<char>) -> nat {
    match kind {
        KeyKind::Status => if issue.status@ == k { 1 } else { 0 },
        KeyKind::Type => if issue.issue_type@ == k { 1 } else { 0 },
        KeyKind::Parent => match issue.parent {
            Some(p) => if p@ == k { 1 } else { 0 },
            None => 0,
        },
        KeyKind::Label => occurrences(issue.labels@, k),
        KeyKind::Blocking => blocking_count(issue.dependencies@, k),
    }
}

/// The positions listed under `k` in the table `kind` once the first `n`
/// issues are indexed: each position as often as the issue has the key.
pub open spec fn keyed_positions(issues: Seq<IssueData>, kind: KeyKind, k: Seq<char>, n: int) -> Seq<int>
    decreases n,
{
    if n <= 0 {
        seq![]
    } else {
        keyed_positions(issues, kind, k, n - 1) + Seq::new(key_count(kind, issues[n - 1], k), |i: int| n - 1)
    }
}

/// The group the index holds for a key: the positions, or nothing when
/// there are none.
pub open spec fn as_group(ps: Seq<int>) -> Option<Seq<int>> {
    if ps.len() == 0 {
        None
    } else {
        Some(ps)
    }
}

/// The position of the last issue with identifier `k` among the first `n`.
pub open spec fn last_position(issues: Seq<IssueData>, k: Seq<char>, n: int) -> Option<int>
    decreases n,
{
    if n <= 0 {
        None
    } else if issues[n - 1].identifier@ == k {
        Some(n - 1)
    } else {
        last_position(issues, k, n - 1)
    }
}

/// Whether `groups` lists, for every key, the positions that the first `n`
/// issues have in the table `kind`.
pub open spec fn keyed_table(groups: Seq<(String, Vec<usize>)>, issues: Seq<IssueData>, kind: KeyKind, n: int) -> bool {
    forall|k: Seq<char>| #[trigger] group_of(groups, k) == as_group(keyed_positions(issues, kind, k, n))
}

/// Whether `groups` maps each identifier among the first `n` issues to the
/// position of its last issue.
pub open spec fn id_table(groups: Seq<(String, Vec<usize>)>, issues: Seq<IssueData>, n: int) -> bool {
    forall|k: Seq<char>| #[trigger] group_of(groups, k) == match last_position(issues, k, n) {
        Some(p) => Some(seq![p]),
        None => None,
    }
}

/// Whether the tables of `index` other than the reverse dependencies are
/// those of its issues.
pub open spec fn issue_tables_of(index: IssueIndex) -> bool {
    let issues = index.issues@;
    let n = issues.len() as int;
    &&& id_table(index.by_id@, issues, n)
    &&& keyed_table(index.by_status@, issues, KeyKind::Status, n)
    &&& keyed_table(index.by_type@, issues, KeyKind::Type, n)
    &&& keyed_table(index.by_parent@, issues, KeyKind::Parent, n)
    &&& keyed_table(index.by_label@, issues, KeyKind::Label, n)
}

/// Whether the index holds exactly the tables of its issues.
pub open spec fn index_of(index: IssueIndex) -> bool {
    &&& issue_tables_of(index)
    &&& keyed_table(index.reverse_dependencies@, index.issues@, KeyKind::Blocking, index.issues@.len() as int)
}

proof fn lemma_added_group(ps: Seq<int>, pos: int)
    ensures
        Some(added(as_group(ps), pos)) == as_group(ps.push(pos)),
{
    if ps.len() == 0 {
        assert(ps.push(pos) =~= seq![pos]);
    }
}

/// The count of `k` in the table `kind` for an issue of which the first
/// `m` labels or dependencies (or, for the single-key tables, the key once
/// `m` is positive) have been indexed.
pub open spec fn partial_count(kind: KeyKind, issue: IssueData, k: Seq<char>, m: int) -> nat {
    match kind {
        KeyKind::Label => occurrences(issue.labels@.take(m), k),
        KeyKind::Blocking => blocking_count(issue.dependencies@.take(m), k),
        _ => if m <= 0 { 0 } else { key_count(kind, issue, k) },
    }
}

/// Whether `groups` holds the table `kind` of the first `n` issues and of
/// the part of issue `n` that `m` covers.
pub open spec fn partial_table(groups: Seq<(String, Vec<usize>)>, issues: Seq<IssueData>, kind: KeyKind, n: int, m: int) -> bool {
    forall|k: Seq<char>| #[trigger] group_of(groups, k) == as_group(
        keyed_positions(issues, kind, k, n) + Seq::new(partial_count(kind, issues[n], k, m), |i: int| n),
    )
}

proof fn lemma_partial_start(groups: Seq<(String, Vec<usize>)>, issues: Seq<IssueData>, kind: KeyKind, n: int)
    requires
        0 <= n < issues.len(),
        keyed_table(groups, issues, kind, n),
    ensures
        partial_table(groups, issues, kind, n, 0),
{
    assert forall|k: Seq<char>| #[trigger] group_of(groups, k) == as_group(
        keyed_positions(issues, kind, k, n) + Seq::new(partial_count(kind, issues[n], k, 0), |i: int| n),
    ) by {
        assert(issues[n].labels@.take(0) =~= Seq::<String>::empty());
        assert(issues[n].dependencies@.take(0) =~= Seq::<DependencyLink>::empty());
        assert(keyed_positions(issues, kind, k, n) + Seq::new(partial_count(kind, issues[n], k, 0), |i: int| n)
            =~= keyed_positions(issues, kind, k, n));
    }
}

proof fn lemma_partial_end(groups: Seq<(String, Vec<usize>)>, issues: Seq<IssueData>, kind: KeyKind, n: int, m: int)
    requires
        0 <= n < issues.len(),
        partial_table(groups, issues, kind, n, m),
        forall|k: Seq<char>| #[trigger] partial_count(kind, issues[n], k, m) == key_count(kind, issues[n], k),
    ensures
        keyed_table(groups, issues, kind, n + 1),
{
    assert forall|k: Seq<char>| #[trigger] group_of(groups, k) == as_group(keyed_positions(issues, kind, k, n + 1)) by {
        assert(partial_count(kind, issues[n], k, m) == key_count(kind, issues[n], k));
        assert(keyed_positions(issues, kind, k, n + 1) =~= keyed_positions(issues, kind, k, n) + Seq::new(
            partial_count(kind, issues[n], k, m),
            |i: int| n,
        ));
    }
}

proof fn lemma_partial_added(
    before: Seq<(String, Vec<usize>)>,
    after: Seq<(String, Vec<usize>)>,
    issues: Seq<IssueData>,
    kind: KeyKind,
    n: int,
    m: int,
    key: Seq<char>,
)
    requires
        0 <= n < issues.len(),
        partial_table(before, issues, kind, n, m),
        partial_count(kind, issues[n], key, m + 1) == partial_count(kind, issues[n], key, m) + 1,
        forall|k: Seq<char>| k != key ==> #[trigger] partial_count(kind, issues[n], k, m + 1) == partial_count(kind, issues[n], k, m),
        group_of(after, key) == Some(added(group_of(before, key), n)),
        forall|k: Seq<char>| k != key ==> #[trigger] group_of(after, k) == group_of(before, k),
    ensures
        partial_table(after, issues, kind, n, m + 1),
{
    assert forall|k: Seq<char>| #[trigger] group_of(after, k) == as_group(
        keyed_positions(issues, kind, k, n) + Seq::new(partial_count(kind, issues[n], k, m + 1), |i: int| n),
    ) by {
        let base = keyed_positions(issues, kind, k, n);
        let c = partial_count(kind, issues[n], k, m);
        assert(group_of(before, k) == as_group(base + Seq::new(c, |i: int| n)));
        if k == key {
            lemma_added_group(base + Seq::new(c, |i: int| n), n);
            assert(base + Seq::new(c + 1, |i: int| n) =~= (base + Seq::new(c, |i: int| n)).push(n));
        }
    }
}

proof fn lemma_partial_same(groups: Seq<(String, Vec<usize>)>, issues: Seq<IssueData>, kind: KeyKind, n: int, m: int)
    requires
        0 <= n < issues.len(),
        partial_table(groups, issues, kind, n, m),
        forall|k: Seq<char>| #[trigger] partial_count(kind, issues[n], k, m + 1) == partial_count(kind, issues[n], k, m),
    ensures
        partial_table(groups, issues, kind, n, m + 1),
{
    assert forall|k: Seq<char>| #[trigger] group_of(groups, k) == as_group(
        keyed_positions(issues, kind, k, n) + Seq::new(partial_count(kind, issues[n], k, m + 1), |i: int| n),
    ) by {
        assert(partial_count(kind, issues[n], k, m + 1) == partial_count(kind, issues[n], k, m));
    }
}

proof fn lemma_occurrences_step(items: Seq<String>, m: int, k: Seq<char>)
    requires
        0 <= m < items.len(),
    ensures
        occurrences(items.take(m + 1), k) == occurrences(items.take(m), k) + if items[m]@ == k {
            1nat
        } else {
            0nat
        },
{
    assert(items.take(m + 1).drop_last() =~= items.take(m));
}

proof fn lemma_blocking_step(deps: Seq<DependencyLink>, m: int, k: Seq<char>)
    requires
        0 <= m < deps.len(),
    ensures
        blocking_count(deps.take(m + 1), k) == blocking_count(deps.take(m), k) + if deps[m].dependency_type@
            == blocked_by_text() && deps[m].target@ == k {
            1nat
        } else {
            0nat
        },
{
    assert(deps.take(m + 1).drop_last() =~= deps.take(m));
}

proof fn lemma_id_step(
    before: Seq<(String, Vec<usize>)>,
    after: Seq<(String, Vec<usize>)>,
    issues: Seq<IssueData>,
    n: int,
)
    requires
        0 <= n < issues.len(),
        id_table(before, issues, n),
        group_of(after, issues[n].identifier@) == Some(seq![n]),
        forall|k: Seq<char>| k != issues[n].identifier@ ==> #[trigger] group_of(after, k) == group_of(before, k),
    ensures
        id_table(after, issues, n + 1),
{
    assert forall|k: Seq<char>| #[trigger] group_of(after, k) == match last_position(issues, k, n + 1) {
        Some(p) => Some(seq![p]),
        None => None,
    } by {
        if k != issues[n].identifier@ {
            assert(group_of(before, k) == match last_position(issues, k, n) {
                Some(p) => Some(seq![p]),
                None => None,
            });
        }
    }
}

/// Adds issue `n` to the single-key table `kind` under `key`.
fn add_single(groups: &mut Groups, issues: &Vec<IssueData>, kind: KeyKind, n: usize, key: &String)
    requires
        n < issues@.len(),
        keyed_table(old(groups)@, issues@, kind, n as int),
        key_count(kind, issues@[n as int], key@) == 1,
        forall|k: Seq<char>| k != key@ ==> #[trigger] key_count(kind, issues@[n as int], k) == 0,
        !(kind is Label) && !(kind is Blocking),
    ensures
        keyed_table(final(groups)@, issues@, kind, n + 1),
{
    let ghost before = groups@;
    proof {
        lemma_partial_start(before, issues@, kind, n as int);
    }
    add_position(groups, key, n, false);
    proof {
        lemma_partial_added(before, groups@, issues@, kind, n as int, 0, key@);
        lemma_partial_end(groups@, issues@, kind, n as int, 1);
    }
}

/// Adds issue `n` to the label table under each of its labels.
fn add_labels(groups: &mut Groups, issues: &Vec<IssueData>, n: usize)
    requires
        n < issues@.len(),
        keyed_table(old(groups)@, issues@, KeyKind::Label, n as int),
    ensures
        keyed_table(final(groups)@, issues@, KeyKind::Label, n + 1),
{
    let issue = &issues[n];
    proof {
        lemma_partial_start(groups@, issues@, KeyKind::Label, n as int);
    }
    let mut m: usize = 0;
    while m < issue.labels.len()
        invariant
            n < issues@.len(),
            *issue == issues@[n as int],
            m <= issue.labels@.len(),
            partial_table(groups@, issues@, KeyKind::Label, n as int, m as int),
        decreases issue.labels@.len() - m,
    {
        let ghost before = groups@;
        add_position(groups, &issue.labels[m], n, false);
        proof {
            assert forall|k: Seq<char>| #[trigger] partial_count(KeyKind::Label, issues@[n as int], k, m + 1) == partial_count(
                KeyKind::Label,
                issues@[n as int],
                k,
                m as int,
            ) + if issue.labels@[m as int]@ == k {
                1nat
            } else {
                0nat
            } by {
                lemma_occurrences_step(issue.labels@, m as int, k);
            }
            lemma_partial_added(before, groups@, issues@, KeyKind::Label, n as int, m as int, issue.labels@[m as int]@);
        }
        m += 1;
    }
    proof {
        assert(issue.labels@.take(m as int) =~= issue.labels@);
        lemma_partial_end(groups@, issues@, KeyKind::Label, n as int, m as int);
    }
}

/// Adds issue `n` to the reverse dependency table under the target of
/// each of its blocking dependencies.
fn add_blocking(groups: &mut Groups, issues: &Vec<IssueData>, n: usize)
    requires
        n < issues@.len(),
        keyed_table(old(groups)@, issues@, KeyKind::Blocking, n as int),
    ensures
        keyed_table(final(groups)@, issues@, KeyKind::Blocking, n + 1),
{
    let issue = &issues[n];
    proof {
        lemma_partial_start(groups@, issues@, KeyKind::Blocking, n as int);
    }
    let mut m: usize = 0;
    while m < issue.dependencies.len()
        invariant
            n < issues@.len(),
            *issue == issues@[n as int],
            m <= issue.dependencies@.len(),
            partial_table(groups@, issues@, KeyKind::Blocking, n as int, m as int),
        decreases issue.dependencies@.len() - m,
    {
        let dependency = &issue.dependencies[m];
        let ghost before = groups@;
        let blocking = equals(&dependency.dependency_type, blocked_by());
        proof {
            assert forall|k: Seq<char>| #[trigger] partial_count(KeyKind::Blocking, issues@[n as int], k, m + 1) == partial_count(
                KeyKind::Blocking,
                issues@[n as int],
                k,
                m as int,
            ) + if blocking && dependency.target@ == k {
                1nat
            } else {
                0nat
            } by {
                lemma_blocking_step(issue.dependencies@, m as int, k);
            }
        }
        if blocking {
            add_position(groups, &dependency.target, n, false);
            proof {
                lemma_partial_added(before, groups@, issues@, KeyKind::Blocking, n as int, m as int, dependency.target@);
            }
        } else {
            proof {
                lemma_partial_same(groups@, issues@, KeyKind::Blocking, n as int, m as int);
            }
        }
        m += 1;
    }
    proof {
        assert(issue.dependencies@.take(m as int) =~= issue.dependencies@);
        lemma_partial_end(groups@, issues@, KeyKind::Blocking, n as int, m as int);
    }
}

/// Builds every table of the index but the reverse dependencies, which it
/// leaves empty.
fn index_issue_tables(issues: Vec<IssueData>) -> (index: IssueIndex)
    ensures
        index.issues@ == issues@,
        issue_tables_of(index),
        index.reverse_dependencies@.len() == 0,
{
    let mut by_id: Groups = Vec::new();
    let mut by_status: Groups = Vec::new();
    let mut by_type: Groups = Vec::new();
    let mut by_parent: Groups = Vec::new();
    let mut by_label: Groups = Vec::new();
    let mut n: usize = 0;
    while n < issues.len()
        invariant
            n <= issues@.len(),
            id_table(by_id@, issues@, n as int),
            keyed_table(by_status@, issues@, KeyKind::Status, n as int),
            keyed_table(by_type@, issues@, KeyKind::Type, n as int),
            keyed_table(by_parent@, issues@, KeyKind::Parent, n as int),
            keyed_table(by_label@, issues@, KeyKind::Label, n as int),
        decreases issues@.len() - n,
    {
        let issue = &issues[n];
        let ghost before = by_id@;
        add_position(&mut by_id, &issue.identifier, n, true);
        proof {
            lemma_id_step(before, by_id@, issues@, n as int);
        }
        add_single(&mut by_status, &issues, KeyKind::Status, n, &issue.status);
        add_single(&mut by_type, &issues, KeyKind::Type, n, &issue.issue_type);
        match &issue.parent {
            Some(parent) => {
                add_single(&mut by_parent, &issues, KeyKind::Parent, n, parent);
            },
            None => {
                proof {
                    lemma_partial_start(by_parent@, issues@, KeyKind::Parent, n as int);
                    lemma_partial_end(by_parent@, issues@, KeyKind::Parent, n as int, 0);
                }
            },
        }
        add_labels(&mut by_label, &issues, n);
        n += 1;
    }
    IssueIndex {
        issues,
        by_id,
        by_status,
        by_type,
        by_parent,
        by_label,
        reverse_dependencies: Vec::new(),
    }
}

/// Builds the index of `issues`, given in the order of their file paths:
/// each identifier to its last issue, and each status, type, parent,
/// label and blocking target to the issues that have it, in order.
pub fn build_index(issues: Vec<IssueData>) -> (index: IssueIndex)
    ensures
        index.issues@ == issues@,
        index_of(index),
{
    let mut index = index_issue_tables(issues);
    let mut reverse: Groups = Vec::new();
    let mut n: usize = 0;
    while n < index.issues.len()
        invariant
            n <= index.issues@.len(),
            keyed_table(reverse@, index.issues@, KeyKind::Blocking, n as int),
        decreases index.issues@.len() - n,
    {
        add_blocking(&mut reverse, &index.issues, n);
        n += 1;
    }
    index.reverse_dependencies = reverse;
    index
}

/// The identifiers of the first entry for the target `k`, if any.
pub open spec fn cache_entry(entries: Seq<(String, Vec<String>)>, k: Seq<char>) -> Option<Seq<String>>
    decreases entries.len(),
{
    if entries.len() == 0 {
        None
    } else if entries[0].0@ == k {
        Some(entries[0].1@)
    } else {
        cache_entry(entries.drop_first(), k)
    }
}

/// The positions of the last issues with the identifiers `ids`, leaving out
/// the identifiers that no issue has.
pub open spec fn cached_positions(issues: Seq<IssueData>, ids: Seq<String>) -> Seq<int>
    decreases ids.len(),
{
    if ids.len() == 0 {
        seq![]
    } else {
        cached_positions(issues, ids.drop_last()) + match last_position(issues, ids.last()@, issues.len() as int) {
            Some(p) => seq![p],
            None => seq![],
        }
    }
}

/// The reverse dependency table read back from a cache.
pub open spec fn cached_table(groups: Seq<(String, Vec<usize>)>, issues: Seq<IssueData>, entries: Seq<(String, Vec<String>)>) -> bool {
    forall|k: Seq<char>| #[trigger] group_of(groups, k) == match cache_entry(entries, k) {
        Some(ids) => Some(cached_positions(issues, ids)),
        None => None,
    }
}

proof fn lemma_parallel_tables(groups: Seq<(String, Vec<usize>)>, issues: Seq<IssueData>, entries: Seq<(String, Vec<String>)>, k: Seq<char>)
    requires
        groups.len() == entries.len(),
        forall|i: int| 0 <= i < groups.len() ==> (#[trigger] groups[i]).0@ == entries[i].0@,
        forall|i: int| 0 <= i < groups.len() ==> as_ints((#[trigger] groups[i]).1@) == cached_positions(issues, entries[i].1@),
    ensures
        group_of(groups, k) == match cache_entry(entries, k) {
            Some(ids) => Some(cached_positions(issues, ids)),
            None => None,
        },
    decreases groups.len(),
{
    if groups.len() > 0 {
        assert(groups[0].0@ == entries[0].0@);
        assert(as_ints(groups[0].1@) == cached_positions(issues, entries[0].1@));
        assert forall|i: int| 0 <= i < groups.drop_first().len() implies (#[trigger] groups.drop_first()[i]).0@ == entries.drop_first()[i].0@ && as_ints(groups.drop_first()[i].1@) == cached_positions(issues, entries.drop_first()[i].1@) by {
            assert(groups.drop_first()[i] == groups[i + 1]);
            assert(entries.drop_first()[i] == entries[i + 1]);
        }
        lemma_parallel_tables(groups.drop_first(), issues, entries.drop_first(), k);
    }
}

/// The place in `groups` of the first group for `key`, if any.
fn find_group(groups: &Groups, key: &String) -> (r: Option<usize>)
    ensures
        match r {
            Some(j) => j < groups@.len() && group_of(groups@, key@) == Some(as_ints(groups@[j as int].1@)),
            None => group_of(groups@, key@) is None,
        },
{
    let mut j: usize = 0;
    while j < groups.len()
        invariant
            j <= groups@.len(),
            forall|i: int| 0 <= i < j ==> (#[trigger] groups@[i]).0@ != key@,
        decreases groups@.len() - j,
    {
        if equals(&groups[j].0, key) {
            proof {
                lemma_group_of_first(groups@, j as int, key@);
            }
            return Some(j);
        }
        j += 1;
    }
    proof {
        lemma_group_of_absent(groups@, key@);
    }
    None
}

/// Rebuilds an index from cached issues and the cached reverse
/// dependencies: for each target, the identifiers of the issues that it
/// blocks, of which those that no cached issue has are left out.
pub fn build_index_from_cache(issues: Vec<IssueData>, reverse_deps: Vec<(String, Vec<String>)>) -> (index: IssueIndex)
    ensures
        index.issues@ == issues@,
        issue_tables_of(index),
        cached_table(index.reverse_dependencies@, issues@, reverse_deps@),
{
    let mut index = index_issue_tables(issues);
    let ghost all = index.issues@;
    let mut reverse: Groups = Vec::new();
    let mut e: usize = 0;
    while e < reverse_deps.len()
        invariant
            index.issues@ == all,
            issue_tables_of(index),
            e <= reverse_deps@.len(),
            reverse@.len() == e,
            forall|i: int| 0 <= i < e ==> (#[trigger] reverse@[i]).0@ == reverse_deps@[i].0@,
            forall|i: int| 0 <= i < e ==> as_ints((#[trigger] reverse@[i]).1@) == cached_positions(all, reverse_deps@[i].1@),
        decreases reverse_deps@.len() - e,
    {
        let ids = &reverse_deps[e].1;
        let mut positions: Vec<usize> = Vec::new();
        let mut q: usize = 0;
        while q < ids.len()
            invariant
                index.issues@ == all,
                issue_tables_of(index),
                q <= ids@.len(),
                as_ints(positions@) == cached_positions(all, ids@.take(q as int)),
            decreases ids@.len() - q,
        {
            let ghost prev = positions@;
            assert(ids@.take(q + 1).drop_last() =~= ids@.take(q as int));
            match find_group(&index.by_id, &ids[q]) {
                Some(j) => {
                    assert(group_of(index.by_id@, ids@[q as int]@) == match last_position(all, ids@[q as int]@, all.len() as int) {
                        Some(p) => Some(seq![p]),
                        None => None,
                    });
                    let found = &index.by_id[j].1;
                    assert(as_ints(found@).len() == 1);
                    positions.push(found[0]);
                    assert(as_ints(positions@) =~= as_ints(prev).push(found@[0] as int));
                },
                None => {
                    assert(group_of(index.by_id@, ids@[q as int]@) == match last_position(all, ids@[q as int]@, all.len() as int) {
                        Some(p) => Some(seq![p]),
                        None => None,
                    });
                    assert(as_ints(positions@) =~= as_ints(prev));
                },
            }
            q += 1;
        }
        assert(ids@.take(q as int) =~= ids@);
        reverse.push((reverse_deps[e].0.clone(), positions));
        e += 1;
    }
    proof {
        assert forall|k: Seq<char>| #[trigger] group_of(reverse@, k) == match cache_entry(reverse_deps@, k) {
            Some(ids) => Some(cached_positions(all, ids)),
            None => None,
        } by {
            lemma_parallel_tables(reverse@, all, reverse_deps@, k);
        }
    }
    index.reverse_dependencies = reverse;
    index
}

} // verus!
