//! Directed graphs over node indices: reachability and cycle detection.

use vstd::prelude::*;
use vstd::set_lib::*;

verus! {

/// Every successor index names a node of the graph.
pub open spec fn well_formed_graph(adj: Seq<Seq<usize>>) -> bool {
    forall|i: int, k: int|
        0 <= i < adj.len() && 0 <= k < adj[i].len() ==> (#[trigger] adj[i][k]) < adj.len()
}

/// There is an edge from `a` to `b`.
pub open spec fn edge(adj: Seq<Seq<usize>>, a: usize, b: usize) -> bool {
    a < adj.len() && adj[a as int].contains(b)
}

/// `p` is a walk: one or more nodes, each joined to the next by an edge.
pub open spec fn is_walk(adj: Seq<Seq<usize>>, p: Seq<usize>) -> bool {
    &&& p.len() >= 1
    &&& forall|k: int| 0 <= k < p.len() - 1 ==> edge(adj, #[trigger] p[k], p[k + 1])
}

/// Some walk leads from `a` to `b` (every node reaches itself).
pub open spec fn reaches(adj: Seq<Seq<usize>>, a: usize, b: usize) -> bool {
    exists|p: Seq<usize>| #[trigger] is_walk(adj, p) && p[0] == a && p.last() == b
}

/// Some walk of at least one edge leads from `v` back to `v`.
pub open spec fn on_cycle(adj: Seq<Seq<usize>>, v: usize) -> bool {
    exists|p: Seq<usize>| #[trigger] is_walk(adj, p) && p.len() >= 2 && p[0] == v && p.last() == v
}

/// A node on a cycle can be reached from `start`.
pub open spec fn cycle_reachable(adj: Seq<Seq<usize>>, start: usize) -> bool {
    exists|v: usize| #[trigger] reaches(adj, start, v) && on_cycle(adj, v)
}

/// Number of `true` entries.
pub open spec fn count_true(s: Seq<bool>) -> nat
    decreases s.len(),
{
    if s.len() == 0 {
        0
    } else {
        count_true(s.drop_last()) + if s.last() { 1nat } else { 0nat }
    }
}

proof fn lemma_count_true_bound(s: Seq<bool>)
    ensures
        count_true(s) <= s.len(),
    decreases s.len(),
{
    if s.len() > 0 {
        lemma_count_true_bound(s.drop_last());
    }
}

proof fn lemma_count_true_set(s: Seq<bool>, i: int)
    requires
        0 <= i < s.len(),
        !s[i],
    ensures
        count_true(s.update(i, true)) == count_true(s) + 1,
    decreases s.len(),
{
    let t = s.update(i, true);
    if i == s.len() - 1 {
        assert(t.drop_last() =~= s.drop_last());
    } else {
        assert(t.drop_last() =~= s.drop_last().update(i, true));
        lemma_count_true_set(s.drop_last(), i);
    }
}

proof fn lemma_walk_extend(adj: Seq<Seq<usize>>, p: Seq<usize>, b: usize)
    requires
        is_walk(adj, p),
        edge(adj, p.last(), b),
    ensures
        is_walk(adj, p.push(b)),
        p.push(b)[0] == p[0],
        p.push(b).last() == b,
{
    let q = p.push(b);
    assert forall|k: int| 0 <= k < q.len() - 1 implies edge(adj, #[trigger] q[k], q[k + 1]) by {
        if k < p.len() - 1 {
            assert(q[k] == p[k] && q[k + 1] == p[k + 1]);
        } else {
            assert(q[k] == p.last());
        }
    }
}

/// A set of marked nodes that contains `start` and is closed under edges
/// contains every node reachable from `start`.
proof fn lemma_closed_marks_hold_reachable(
    adj: Seq<Seq<usize>>,
    marks: Seq<bool>,
    p: Seq<usize>,
)
    requires
        marks.len() == adj.len(),
        is_walk(adj, p),
        p[0] < marks.len(),
        marks[p[0] as int],
        forall|a: usize, b: usize| a < marks.len() && marks[a as int] && #[trigger] edge(adj, a, b) ==> b < marks.len() && marks[b as int],
    ensures
        p.last() < marks.len(),
        marks[p.last() as int],
    decreases p.len(),
{
    if p.len() > 1 {
        let q = p.drop_last();
        assert(is_walk(adj, q)) by {
            assert forall|k: int| 0 <= k < q.len() - 1 implies edge(adj, #[trigger] q[k], q[k + 1]) by {
                assert(q[k] == p[k] && q[k + 1] == p[k + 1]);
            }
        }
        lemma_closed_marks_hold_reachable(adj, marks, q);
        assert(edge(adj, p[p.len() - 2], p[p.len() - 1]));
    }
}

/// Along a walk whose first node is removed, every edge leads to a removed
/// node of strictly smaller rank.
proof fn lemma_rank_decreases_along_walk(
    adj: Seq<Seq<usize>>,
    removed: Seq<bool>,
    rank: Seq<int>,
    p: Seq<usize>,
)
    requires
        removed.len() == adj.len(),
        rank.len() == adj.len(),
        is_walk(adj, p),
        p[0] < removed.len(),
        removed[p[0] as int],
        forall|a: usize, b: usize|
            a < removed.len() && removed[a as int] && #[trigger] edge(adj, a, b) ==> b < removed.len()
                && removed[b as int] && rank[b as int] < rank[a as int],
    ensures
        p.last() < removed.len(),
        removed[p.last() as int],
        p.len() >= 2 ==> rank[p.last() as int] < rank[p[0] as int],
    decreases p.len(),
{
    if p.len() > 1 {
        let q = p.drop_last();
        assert(is_walk(adj, q)) by {
            assert forall|k: int| 0 <= k < q.len() - 1 implies edge(adj, #[trigger] q[k], q[k + 1]) by {
                assert(q[k] == p[k] && q[k + 1] == p[k + 1]);
            }
        }
        lemma_rank_decreases_along_walk(adj, removed, rank, q);
        assert(edge(adj, p[p.len() - 2], p[p.len() - 1]));
    }
}

/// Among `n + 1` or more node indices below `n`, one occurs twice.
proof fn lemma_pigeonhole(p: Seq<usize>, n: nat)
    requires
        p.len() > n,
        forall|k: int| 0 <= k < p.len() ==> #[trigger] p[k] < n,
    ensures
        exists|i: int, j: int| 0 <= i < j < p.len() && p[i] == p[j],
{
    let q = p.map_values(|x: usize| x as int);
    if !(exists|i: int, j: int| 0 <= i < j < p.len() && p[i] == p[j]) {
        assert(q.no_duplicates()) by {
            assert forall|i: int, j: int| 0 <= i < q.len() && 0 <= j < q.len() && i != j implies q[i]
                != q[j] by {
                if i < j {
                    assert(p[i] != p[j]);
                } else {
                    assert(p[j] != p[i]);
                }
            }
        }
        q.unique_seq_to_set();
        lemma_int_range(0, n as int);
        assert(q.to_set().subset_of(set_int_range(0, n as int))) by {
            assert forall|x: int| q.to_set().contains(x) implies set_int_range(0, n as int).contains(x) by {
                let k = choose|k: int| 0 <= k < q.len() && q[k] == x;
                assert(p[k] < n);
            }
        }
        lemma_len_subset(q.to_set(), set_int_range(0, n as int));
    }
}

/// A walk of `k + 1` nodes through a region in which every node has an
/// edge to another node of the region.
proof fn build_live_walk(adj: Seq<Seq<usize>>, live: Seq<bool>, u: usize, k: nat) -> (p: Seq<usize>)
    requires
        live.len() == adj.len(),
        u < live.len(),
        live[u as int],
        forall|a: usize|
            a < live.len() && #[trigger] live[a as int] ==> exists|b: usize| b < live.len() && live[b as int] && edge(adj, a, b),
    ensures
        p.len() == k + 1,
        is_walk(adj, p),
        p[0] == u,
        forall|t: int| 0 <= t < p.len() ==> #[trigger] p[t] < live.len() && live[p[t] as int],
    decreases k,
{
    if k == 0 {
        let p = seq![u];
        assert(is_walk(adj, p));
        p
    } else {
        let p = build_live_walk(adj, live, u, (k - 1) as nat);
        let a = p.last();
        assert(live[a as int]);
        let b = choose|b: usize| b < live.len() && live[b as int] && edge(adj, a, b);
        lemma_walk_extend(adj, p, b);
        let p2 = p.push(b);
        assert forall|t: int| 0 <= t < p2.len() implies #[trigger] p2[t] < live.len() && live[p2[t] as int] by {
            if t < p.len() {
                assert(p2[t] == p[t]);
            }
        }
        p2
    }
}

/// If every node of a non-empty marked region has an edge to another marked
/// node, some marked node lies on a cycle.
proof fn lemma_region_without_sink_has_cycle(adj: Seq<Seq<usize>>, live: Seq<bool>, u: usize)
    requires
        live.len() == adj.len(),
        u < live.len(),
        live[u as int],
        forall|a: usize|
            a < live.len() && #[trigger] live[a as int] ==> exists|b: usize| b < live.len() && live[b as int] && edge(adj, a, b),
    ensures
        exists|v: usize| v < live.len() && live[v as int] && #[trigger] on_cycle(adj, v),
{
    let n = live.len();
    let p = build_live_walk(adj, live, u, n);
    lemma_pigeonhole(p, n);
    let (i, j) = choose|i: int, j: int| 0 <= i < j < p.len() && p[i] == p[j];
    lemma_repeat_closes_cycle(adj, p, i, j);
    assert(p[i] < live.len() && live[p[i] as int]);
}

/// A walk that visits a node twice puts that node on a cycle.
proof fn lemma_repeat_closes_cycle(adj: Seq<Seq<usize>>, p: Seq<usize>, i: int, j: int)
    requires
        is_walk(adj, p),
        0 <= i < j < p.len(),
        p[i] == p[j],
    ensures
        on_cycle(adj, p[i]),
{
    let c = p.subrange(i, j + 1);
    assert forall|t: int| 0 <= t < c.len() - 1 implies edge(adj, #[trigger] c[t], c[t + 1]) by {
        assert(c[t] == p[i + t] && c[t + 1] == p[i + t + 1]);
    }
    assert(is_walk(adj, c));
    assert(c[0] == p[i]);
    assert(c.last() == p[j]);
}

/// `marks` holds exactly what a search from `start` must: `start`, only
/// nodes reachable from it, and every edge out of a marked node ends at a
/// marked node.
pub open spec fn reach_marks(adj: Seq<Seq<usize>>, start: usize, marks: Seq<bool>) -> bool {
    &&& marks.len() == adj.len()
    &&& start < marks.len()
    &&& marks[start as int]
    &&& forall|i: usize| i < marks.len() && #[trigger] marks[i as int] ==> reaches(adj, start, i)
    &&& forall|a: usize, b: usize|
        a < marks.len() && marks[a as int] && #[trigger] edge(adj, a, b) ==> b < marks.len()
            && marks[b as int]
}

/// A vector of `n` copies of `false`.
fn falses(n: usize) -> (v: Vec<bool>)
    ensures
        v@.len() == n,
        forall|i: int| 0 <= i < n ==> !v@[i],
        count_true(v@) == 0,
{
    let mut v: Vec<bool> = Vec::new();
    let mut i: usize = 0;
    while i < n
        invariant
            i <= n,
            v@.len() == i,
            forall|k: int| 0 <= k < i ==> !v@[k],
            count_true(v@) == 0,
        decreases n - i,
    {
        let ghost before = v@;
        v.push(false);
        assert(v@.drop_last() =~= before);
        i += 1;
    }
    v
}

/// Mark every node reachable from `start`.
fn mark_reachable(adj: &Vec<Vec<usize>>, start: usize) -> (marks: Vec<bool>)
    requires
        well_formed_graph(adj.deep_view()),
        start < adj.len(),
    ensures
        reach_marks(adj.deep_view(), start, marks@),
{
    let ghost g = adj.deep_view();
    let n = adj.len();
    let mut marks = falses(n);
    proof {
        lemma_count_true_set(marks@, start as int);
        let w = seq![start];
        assert(is_walk(g, w));
        assert(reaches(g, start, start));
    }
    marks.set(start, true);
    let mut queue: Vec<usize> = Vec::new();
    queue.push(start);
    assert(queue@[0] == start);
    assert forall|i: usize| i < n && #[trigger] marks@[i as int] implies queue@.contains(i) by {
        if i != start {
            assert(!marks@[i as int]);
        }
    }
    let mut head: usize = 0;
    while head < queue.len()
        invariant
            g == adj.deep_view(),
            well_formed_graph(g),
            n == adj.len(),
            g.len() == n,
            marks@.len() == n,
            start < n,
            marks@[start as int],
            head <= queue@.len(),
            count_true(marks@) == queue@.len(),
            forall|k: int| 0 <= k < queue@.len() ==> #[trigger] queue@[k] < n && marks@[queue@[k] as int],
            forall|i: usize| i < n && #[trigger] marks@[i as int] ==> queue@.contains(i),
            forall|i: usize| i < n && #[trigger] marks@[i as int] ==> reaches(g, start, i),
            forall|k: int, b: usize|
                0 <= k < head && #[trigger] edge(g, queue@[k], b) ==> b < n && marks@[b as int],
        decreases n - queue@.len(), queue@.len() - head,
    {
        proof {
            lemma_count_true_bound(marks@);
        }
        let u = queue[head];
        let succs = &adj[u];
        let ghost queue_before = queue@;
        let mut t: usize = 0;
        while t < succs.len()
            invariant
                g == adj.deep_view(),
                well_formed_graph(g),
                n == adj.len(),
                g.len() == n,
                u < n,
                succs@ == adj@[u as int]@,
                g[u as int] == succs@,
                t <= succs@.len(),
                marks@.len() == n,
                marks@[start as int],
                head < queue@.len(),
                queue@[head as int] == u,
                queue_before.len() <= queue@.len(),
                forall|k: int| 0 <= k < queue_before.len() ==> #[trigger] queue@[k] == queue_before[k],
                count_true(marks@) == queue@.len(),
                forall|k: int| 0 <= k < queue@.len() ==> #[trigger] queue@[k] < n && marks@[queue@[k] as int],
                forall|i: usize| i < n && #[trigger] marks@[i as int] ==> queue@.contains(i),
                forall|i: usize| i < n && #[trigger] marks@[i as int] ==> reaches(g, start, i),
                forall|k: int, b: usize|
                    0 <= k < head && #[trigger] edge(g, queue@[k], b) ==> b < n && marks@[b as int],
                forall|s: int| 0 <= s < t ==> marks@[#[trigger] succs@[s] as int],
            decreases succs@.len() - t,
        {
            let b = succs[t];
            assert(b < n) by {
                assert(g[u as int][t as int] == b);
            }
            if !marks[b] {
                proof {
                    lemma_count_true_set(marks@, b as int);
                    lemma_count_true_bound(marks@.update(b as int, true));
                    assert(marks@[u as int]);
                    assert(reaches(g, start, u));
                    let p = choose|p: Seq<usize>| #[trigger] is_walk(g, p) && p[0] == start && p.last() == u;
                    assert(g[u as int].contains(b)) by {
                        assert(g[u as int][t as int] == b);
                    }
                    lemma_walk_extend(g, p, b);
                    assert(reaches(g, start, b)) by {
                        assert(is_walk(g, p.push(b)));
                    }
                }
                let ghost marks_before = marks@;
                let ghost queue_before_push = queue@;
                marks.set(b, true);
                queue.push(b);
                proof {
                    assert(queue@.last() == b);
                    assert forall|i: usize| i < n && #[trigger] marks@[i as int] implies queue@.contains(i) by {
                        if i == b {
                            assert(queue@[queue@.len() - 1] == b);
                        } else {
                            assert(marks_before[i as int]);
                            let k = choose|k: int| 0 <= k < queue@.len() - 1 && queue_before_push[k] == i;
                            assert(queue@[k] == i);
                        }
                    }
                }
            }
            t += 1;
        }
        proof {
            lemma_count_true_bound(marks@);
            assert forall|k: int, b: usize| 0 <= k < head + 1 && #[trigger] edge(g, queue@[k], b) implies b < n
                && marks@[b as int] by {
                if k == head {
                    let s = choose|s: int| 0 <= s < succs@.len() && succs@[s] == b;
                    assert(marks@[succs@[s] as int]);
                }
            }
        }
        head += 1;
    }
    proof {
        assert forall|a: usize, b: usize|
            a < marks@.len() && marks@[a as int] && #[trigger] edge(g, a, b) implies b < marks@.len()
                && marks@[b as int] by {
            assert(queue@.contains(a));
            let k = choose|k: int| 0 <= k < queue@.len() && queue@[k] == a;
            assert(edge(g, queue@[k], b));
        }
    }
    marks
}

/// Whether a cycle can be reached from `start` by following edges.
pub fn cycle_reachable_from(adj: &Vec<Vec<usize>>, start: usize) -> (found: bool)
    requires
        well_formed_graph(adj.deep_view()),
        start < adj.len(),
    ensures
        found == cycle_reachable(adj.deep_view(), start),
{
    let ghost g = adj.deep_view();
    let n = adj.len();
    let reach = mark_reachable(adj, start);
    let mut removed = falses(n);
    let ghost mut rank: Seq<int> = Seq::new(n as nat, |i: int| 0);
    let ghost mut next_rank: int = 0;
    // Repeatedly remove a reachable node all of whose successors are removed.
    loop
        invariant
            g == adj.deep_view(),
            well_formed_graph(g),
            n == adj.len(),
            g.len() == n,
            reach_marks(g, start, reach@),
            removed@.len() == n,
            rank.len() == n,
            forall|i: usize| i < n && #[trigger] removed@[i as int] ==> reach@[i as int],
            forall|i: usize| i < n && #[trigger] removed@[i as int] ==> rank[i as int] < next_rank,
            forall|a: usize, b: usize|
                a < n && removed@[a as int] && #[trigger] edge(g, a, b) ==> b < n && removed@[b as int]
                    && rank[b as int] < rank[a as int],
        ensures
            reach_marks(g, start, reach@),
            removed@.len() == n,
            rank.len() == n,
            forall|a: usize, b: usize|
                a < n && removed@[a as int] && #[trigger] edge(g, a, b) ==> b < n && removed@[b as int]
                    && rank[b as int] < rank[a as int],
            forall|c: usize|
                c < n && #[trigger] reach@[c as int] && !removed@[c as int] ==> exists|b: usize|
                    edge(g, c, b) && !(b < n && removed@[b as int]),
        decreases n - count_true(removed@),
    {
        proof {
            lemma_count_true_bound(removed@);
        }
        let mut candidate: Option<usize> = None;
        let mut i: usize = 0;
        while i < n
            invariant
                g == adj.deep_view(),
                well_formed_graph(g),
                n == adj.len(),
                g.len() == n,
                i <= n,
                reach@.len() == n,
                removed@.len() == n,
                candidate matches Some(c) ==> c < n && reach@[c as int] && !removed@[c as int]
                    && forall|b: usize| #[trigger] edge(g, c, b) ==> b < n && removed@[b as int],
                candidate is None ==> forall|c: usize|
                    c < i && #[trigger] reach@[c as int] && !removed@[c as int] ==> exists|b: usize|
                        edge(g, c, b) && !(b < n && removed@[b as int]),
            decreases n - i,
        {
            if candidate.is_none() && reach[i] && !removed[i] {
                let succs = &adj[i];
                let mut all_removed = true;
                let mut t: usize = 0;
                while t < succs.len()
                    invariant
                        g == adj.deep_view(),
                        well_formed_graph(g),
                        n == adj.len(),
                        g.len() == n,
                        i < n,
                        succs@ == g[i as int],
                        removed@.len() == n,
                        t <= succs@.len(),
                        all_removed ==> forall|s: int| 0 <= s < t ==> removed@[#[trigger] succs@[s] as int],
                        !all_removed ==> exists|s: int| 0 <= s < t && !removed@[#[trigger] succs@[s] as int],
                    decreases succs@.len() - t,
                {
                    let b = succs[t];
                    assert(b < n) by {
                        assert(g[i as int][t as int] == b);
                    }
                    if !removed[b] {
                        all_removed = false;
                    }
                    t += 1;
                }
                if all_removed {
                    proof {
                        assert forall|b: usize| #[trigger] edge(g, i, b) implies b < n && removed@[b as int] by {
                            let s = choose|s: int| 0 <= s < succs@.len() && succs@[s] == b;
                            assert(removed@[succs@[s] as int]);
                        }
                    }
                    candidate = Some(i);
                } else {
                    proof {
                        let s = choose|s: int| 0 <= s < succs@.len() && !removed@[#[trigger] succs@[s] as int];
                        let b = succs@[s];
                        assert(edge(g, i, b));
                    }
                }
            }
            i += 1;
        }
        match candidate {
            None => {
                assert(i == n);
                break;
            },
            Some(c) => {
                proof {
                    lemma_count_true_set(removed@, c as int);
                    rank = rank.update(c as int, next_rank);
                    next_rank = next_rank + 1;
                }
                removed.set(c, true);
                proof {
                    lemma_count_true_bound(removed@);
                }
            },
        }
    }
    // The answer: is some reachable node left?
    let mut found = false;
    let mut i: usize = 0;
    while i < n
        invariant
            n == reach@.len(),
            g.len() == n,
            reach_marks(g, start, reach@),
            removed@.len() == n,
            i <= n,
            found == exists|c: usize| c < i && #[trigger] reach@[c as int] && !removed@[c as int],
        decreases n - i,
    {
        if reach[i] && !removed[i] {
            found = true;
        }
        i += 1;
    }
    proof {
        if found {
            let u = choose|c: usize| c < n && #[trigger] reach@[c as int] && !removed@[c as int];
            let live = Seq::new(n as nat, |k: int| reach@[k] && !removed@[k]);
            assert forall|a: usize| a < live.len() && #[trigger] live[a as int] implies exists|b: usize|
                b < live.len() && live[b as int] && edge(g, a, b) by {
                assert(reach@[a as int] && !removed@[a as int]);
                let b = choose|b: usize| edge(g, a, b) && !(b < n && removed@[b as int]);
                assert(b < n) by {
                    let s = choose|s: int| 0 <= s < g[a as int].len() && g[a as int][s] == b;
                }
                assert(reach@[b as int]);
                assert(live[b as int]);
            }
            lemma_region_without_sink_has_cycle(g, live, u);
            let v = choose|v: usize| v < live.len() && live[v as int] && #[trigger] on_cycle(g, v);
            assert(reaches(g, start, v));
            assert(cycle_reachable(g, start));
        } else {
            if cycle_reachable(g, start) {
                let v = choose|v: usize| #[trigger] reaches(g, start, v) && on_cycle(g, v);
                let p = choose|p: Seq<usize>| #[trigger] is_walk(g, p) && p[0] == start && p.last() == v;
                lemma_closed_marks_hold_reachable(g, reach@, p);
                assert(removed@[v as int]);
                let c = choose|c: Seq<usize>| #[trigger] is_walk(g, c) && c.len() >= 2 && c[0] == v && c.last() == v;
                lemma_rank_decreases_along_walk(g, removed@, rank, c);
            }
        }
    }
    found
}

} // verus!
