//! Dependency rules: allowed types, blocking, and cycle prevention.

use vstd::prelude::*;

use crate::error::KanbusError;
use crate::graph::{cycle_reachable, cycle_reachable_from, edge, is_walk, on_cycle, reaches, well_formed_graph};
use crate::models::{DependencyLink, IssueData};
use crate::text::{equals, owned};

verus! {

/// The dependency type that blocks an issue.
pub open spec fn blocked_by_text() -> Seq<char> {
    seq!['b', 'l', 'o', 'c', 'k', 'e', 'd', '-', 'b', 'y']
}

/// The dependency type that only relates two issues.
pub open spec fn relates_to_text() -> Seq<char> {
    seq!['r', 'e', 'l', 'a', 't', 'e', 's', '-', 't', 'o']
}

/// The literal "blocked-by".
pub fn blocked_by() -> (r: &'static str)
    ensures
        r@ == blocked_by_text(),
{
    let s = "blocked-by";
    proof {
        reveal_strlit("blocked-by");
    }
    s
}

/// The literal "relates-to".
pub fn relates_to() -> (r: &'static str)
    ensures
        r@ == relates_to_text(),
{
    let s = "relates-to";
    proof {
        reveal_strlit("relates-to");
    }
    s
}

/// An issue operation error with the given message.
pub fn issue_error(message: &str) -> (e: KanbusError)
    ensures
        e == KanbusError::IssueOperation(e->IssueOperation_0),
        e->IssueOperation_0@ == message@,
{
    KanbusError::IssueOperation(owned(message))
}

/// Whether a dependency type is one of the allowed types.
pub open spec fn allowed_dependency_type(t: Seq<char>) -> bool {
    t == blocked_by_text() || t == relates_to_text()
}

/// Reject dependency types other than "blocked-by" and "relates-to".
pub fn validate_dependency_type(dependency_type: &str) -> (r: Result<(), KanbusError>)
    ensures
        r is Ok <==> allowed_dependency_type(dependency_type@),
        r matches Err(e) ==> e is IssueOperation && e->IssueOperation_0@ == "invalid dependency type"@,
{
    if !equals(dependency_type, blocked_by()) && !equals(dependency_type, relates_to()) {
        let e = issue_error("invalid dependency type");
        proof {
            reveal_strlit("invalid dependency type");
        }
        return Err(e);
    }
    Ok(())
}

/// Some dependency of the list has the given type.
pub open spec fn has_link_of_type(links: Seq<DependencyLink>, t: Seq<char>) -> bool {
    exists|i: int| 0 <= i < links.len() && #[trigger] links[i].dependency_type@ == t
}

/// Some dependency of the list has the given target and type.
pub open spec fn has_link(links: Seq<DependencyLink>, target: Seq<char>, t: Seq<char>) -> bool {
    exists|i: int|
        0 <= i < links.len() && #[trigger] links[i].target@ == target && links[i].dependency_type@ == t
}

/// Whether the issue already depends on `target_id` with the given type.
pub fn has_dependency(issue: &IssueData, target_id: &str, dependency_type: &str) -> (r: bool)
    ensures
        r == has_link(issue.dependencies@, target_id@, dependency_type@),
{
    let mut i: usize = 0;
    while i < issue.dependencies.len()
        invariant
            i <= issue.dependencies@.len(),
            forall|k: int|
                0 <= k < i ==> !(#[trigger] issue.dependencies@[k].target@ == target_id@
                    && issue.dependencies@[k].dependency_type@ == dependency_type@),
        decreases issue.dependencies@.len() - i,
    {
        let link = &issue.dependencies[i];
        if equals(&link.target, target_id) && equals(&link.dependency_type, dependency_type) {
            return true;
        }
        i += 1;
    }
    false
}

/// Whether any dependency of the issue blocks it.
pub fn is_blocked(issue: &IssueData) -> (r: bool)
    ensures
        r == has_link_of_type(issue.dependencies@, blocked_by_text()),
{
    let mut i: usize = 0;
    while i < issue.dependencies.len()
        invariant
            i <= issue.dependencies@.len(),
            forall|k: int| 0 <= k < i ==> #[trigger] issue.dependencies@[k].dependency_type@ != blocked_by_text(),
        decreases issue.dependencies@.len() - i,
    {
        if equals(&issue.dependencies[i].dependency_type, blocked_by()) {
            return true;
        }
        i += 1;
    }
    false
}

/// Blocking edges between issues: for each issue with blocking
/// dependencies, its identifier and the identifiers it is blocked by.
pub struct DependencyGraph {
    pub edges: Vec<(String, Vec<String>)>,
}

/// The graph as values: each node and its successors.
pub open spec fn graph_view(edges: Seq<(String, Vec<String>)>) -> Seq<(Seq<char>, Seq<Seq<char>>)> {
    edges.map_values(|e: (String, Vec<String>)| (e.0@, e.1.deep_view()))
}

/// No node is listed twice.
pub open spec fn distinct_nodes(g: Seq<(Seq<char>, Seq<Seq<char>>)>) -> bool {
    forall|i: int, j: int| 0 <= i < j < g.len() ==> #[trigger] g[i].0 != #[trigger] g[j].0
}

impl DependencyGraph {
    /// The graph as values.
    pub open spec fn view_edges(&self) -> Seq<(Seq<char>, Seq<Seq<char>>)> {
        graph_view(self.edges@)
    }

    /// No node is listed twice.
    pub open spec fn well_formed(&self) -> bool {
        distinct_nodes(self.view_edges())
    }
}

/// `b` is a successor of `a`.
pub open spec fn follows(g: Seq<(Seq<char>, Seq<Seq<char>>)>, a: Seq<char>, b: Seq<char>) -> bool {
    exists|i: int| 0 <= i < g.len() && #[trigger] g[i].0 == a && g[i].1.contains(b)
}

/// `p` is a walk along successor edges.
pub open spec fn is_chain(g: Seq<(Seq<char>, Seq<Seq<char>>)>, p: Seq<Seq<char>>) -> bool {
    &&& p.len() >= 1
    &&& forall|k: int| 0 <= k < p.len() - 1 ==> follows(g, #[trigger] p[k], p[k + 1])
}

/// A walk of at least one edge leads from `start` to some node that lies
/// on a cycle.
pub open spec fn blocking_cycle_from(g: Seq<(Seq<char>, Seq<Seq<char>>)>, start: Seq<char>) -> bool {
    exists|p: Seq<Seq<char>>, c: Seq<Seq<char>>|
        #[trigger] is_chain(g, p) && #[trigger] is_chain(g, c) && p[0] == start && c.len() >= 2
            && c[0] == p.last() && c.last() == p.last()
}

/// Position of a string in a list, if present.
fn find_index(nodes: &Vec<String>, s: &str) -> (r: Option<usize>)
    ensures
        r matches Some(i) ==> i < nodes@.len() && nodes@[i as int]@ == s@,
        r is None ==> !nodes.deep_view().contains(s@),
{
    let mut i: usize = 0;
    while i < nodes.len()
        invariant
            i <= nodes@.len(),
            forall|k: int| 0 <= k < i ==> nodes@[k]@ != s@,
        decreases nodes@.len() - i,
    {
        if equals(&nodes[i], s) {
            return Some(i);
        }
        i += 1;
    }
    proof {
        if nodes.deep_view().contains(s@) {
            let k = choose|k: int| 0 <= k < nodes.deep_view().len() && nodes.deep_view()[k] == s@;
            assert(nodes@[k]@ == s@);
        }
    }
    None
}

/// Adds `s` unless it is already present.
fn add_node(nodes: &mut Vec<String>, s: &str)
    requires
        old(nodes).deep_view().no_duplicates(),
    ensures
        final(nodes).deep_view().no_duplicates(),
        final(nodes).deep_view().len() >= old(nodes).deep_view().len(),
        forall|k: int| 0 <= k < old(nodes).deep_view().len() ==> #[trigger] final(nodes).deep_view()[k] == old(nodes).deep_view()[k],
        forall|x: Seq<char>| #[trigger] final(nodes).deep_view().contains(x) <==> old(nodes).deep_view().contains(x) || x == s@,
{
    let ghost before = nodes.deep_view();
    match find_index(nodes, s) {
        Some(i) => {
            proof {
                assert(before[i as int] == s@);
            }
        },
        None => {
            nodes.push(owned(s));
            proof {
                let after = nodes.deep_view();
                assert(after =~= before.push(s@));
                assert forall|x: Seq<char>| after.contains(x) <==> before.contains(x) || x == s@ by {
                    if after.contains(x) {
                        let k = choose|k: int| 0 <= k < after.len() && after[k] == x;
                        if k < before.len() {
                            assert(before[k] == x);
                        }
                    }
                    if before.contains(x) {
                        let k = choose|k: int| 0 <= k < before.len() && before[k] == x;
                        assert(after[k] == x);
                    }
                    if x == s@ {
                        assert(after[before.len() as int] == x);
                    }
                }
            }
        },
    }
}

/// Every node of the graph and every successor is named in `nv`.
spec fn names_all(g: Seq<(Seq<char>, Seq<Seq<char>>)>, nv: Seq<Seq<char>>) -> bool {
    forall|a: Seq<char>, b: Seq<char>| #[trigger] follows(g, a, b) ==> nv.contains(a) && nv.contains(b)
}

/// `adj` is the graph `g` renumbered by the positions in `nv`.
spec fn renumbers(
    g: Seq<(Seq<char>, Seq<Seq<char>>)>,
    nv: Seq<Seq<char>>,
    adj: Seq<Seq<usize>>,
) -> bool {
    &&& adj.len() == nv.len()
    &&& well_formed_graph(adj)
    &&& forall|i: usize, j: usize| i < nv.len() && j < nv.len() ==> (#[trigger] edge(adj, i, j) <==> follows(g, nv[i as int], nv[j as int]))
}

proof fn lemma_walk_to_chain(
    g: Seq<(Seq<char>, Seq<Seq<char>>)>,
    nv: Seq<Seq<char>>,
    adj: Seq<Seq<usize>>,
    p: Seq<usize>,
)
    requires
        renumbers(g, nv, adj),
        is_walk(adj, p),
        forall|k: int| 0 <= k < p.len() ==> #[trigger] p[k] < nv.len(),
    ensures
        is_chain(g, p.map_values(|x: usize| nv[x as int])),
{
    let q = p.map_values(|x: usize| nv[x as int]);
    assert forall|k: int| 0 <= k < q.len() - 1 implies follows(g, #[trigger] q[k], q[k + 1]) by {
        assert(edge(adj, p[k], p[k + 1]));
        assert(p[k] < nv.len() && p[k + 1] < nv.len());
    }
}

proof fn lemma_chain_to_walk(
    g: Seq<(Seq<char>, Seq<Seq<char>>)>,
    nv: Seq<Seq<char>>,
    adj: Seq<Seq<usize>>,
    q: Seq<Seq<char>>,
) -> (p: Seq<usize>)
    requires
        renumbers(g, nv, adj),
        names_all(g, nv),
        nv.no_duplicates(),
        nv.len() <= usize::MAX,
        is_chain(g, q),
        nv.contains(q[0]),
    ensures
        is_walk(adj, p),
        p.len() == q.len(),
        forall|k: int| 0 <= k < p.len() ==> #[trigger] p[k] < nv.len() && nv[p[k] as int] == q[k],
{
    assert forall|k: int| 0 <= k < q.len() implies nv.contains(#[trigger] q[k]) by {
        if k > 0 {
            assert(follows(g, q[k - 1], q[k]));
        }
    }
    let p = Seq::new(q.len(), |k: int| (choose|i: int| 0 <= i < nv.len() && #[trigger] nv[i] == q[k]) as usize);
    assert forall|k: int| 0 <= k < p.len() implies #[trigger] p[k] < nv.len() && nv[p[k] as int] == q[k] by {
        assert(nv.contains(q[k]));
        let i = choose|i: int| 0 <= i < nv.len() && #[trigger] nv[i] == q[k];
        assert(p[k] as int == i);
    }
    assert forall|k: int| 0 <= k < p.len() - 1 implies edge(adj, #[trigger] p[k], p[k + 1]) by {
        assert(follows(g, q[k], q[k + 1]));
        assert(p[k] < nv.len() && p[k + 1] < nv.len());
    }
    p
}

/// Build the renumbered graph: node 0 is `start`.
fn renumber(graph: &DependencyGraph, start: &str) -> (res: (Vec<String>, Vec<Vec<usize>>))
    requires
        graph.well_formed(),
    ensures
        res.0.deep_view().no_duplicates(),
        res.0.deep_view().len() >= 1,
        res.0.deep_view().len() <= usize::MAX,
        res.0.deep_view()[0] == start@,
        names_all(graph.view_edges(), res.0.deep_view()),
        renumbers(graph.view_edges(), res.0.deep_view(), res.1.deep_view()),
{
    let ghost g = graph.view_edges();
    let mut nodes: Vec<String> = Vec::new();
    nodes.push(owned(start));
    let mut e: usize = 0;
    while e < graph.edges.len()
        invariant
            g == graph.view_edges(),
            e <= graph.edges@.len(),
            nodes.deep_view().no_duplicates(),
            nodes.deep_view().len() >= 1,
            nodes.deep_view()[0] == start@,
            forall|a: Seq<char>, b: Seq<char>|
                #[trigger] follows(g.subrange(0, e as int), a, b) ==> nodes.deep_view().contains(a)
                    && nodes.deep_view().contains(b),
        decreases graph.edges@.len() - e,
    {
        let key = &graph.edges[e].0;
        let targets = &graph.edges[e].1;
        let ghost before_key = nodes.deep_view();
        add_node(&mut nodes, key);
        let mut t: usize = 0;
        while t < targets.len()
            invariant
                g == graph.view_edges(),
                e < graph.edges@.len(),
                targets.deep_view() == g[e as int].1,
                key@ == g[e as int].0,
                t <= targets@.len(),
                nodes.deep_view().no_duplicates(),
                nodes.deep_view().len() >= 1,
                nodes.deep_view()[0] == start@,
                nodes.deep_view().contains(key@),
                forall|x: Seq<char>| before_key.contains(x) ==> #[trigger] nodes.deep_view().contains(x),
                forall|k: int| 0 <= k < t ==> nodes.deep_view().contains(#[trigger] targets.deep_view()[k]),
            decreases targets@.len() - t,
        {
            add_node(&mut nodes, &targets[t]);
            t += 1;
        }
        proof {
            let nv = nodes.deep_view();
            assert forall|a: Seq<char>, b: Seq<char>|
                #[trigger] follows(g.subrange(0, e + 1), a, b) implies nv.contains(a) && nv.contains(b) by {
                let i = choose|i: int| 0 <= i < e + 1 && #[trigger] g.subrange(0, e + 1)[i].0 == a
                    && g.subrange(0, e + 1)[i].1.contains(b);
                if i < e {
                    assert(follows(g.subrange(0, e as int), a, b)) by {
                        assert(g.subrange(0, e as int)[i] == g.subrange(0, e + 1)[i]);
                    }
                    assert(before_key.contains(a) && before_key.contains(b));
                } else {
                    let k = choose|k: int| 0 <= k < targets.deep_view().len() && targets.deep_view()[k] == b;
                    assert(nv.contains(targets.deep_view()[k]));
                }
            }
        }
        e += 1;
    }
    assert(g.subrange(0, graph.edges@.len() as int) =~= g);
    let n = nodes.len();
    let mut adj: Vec<Vec<usize>> = Vec::new();
    let mut i: usize = 0;
    while i < n
        invariant
            g == graph.view_edges(),
            graph.well_formed(),
            n == nodes@.len(),
            nodes.deep_view().no_duplicates(),
            names_all(g, nodes.deep_view()),
            i <= n,
            adj@.len() == i,
            forall|a: int, k: int| 0 <= a < i && 0 <= k < adj.deep_view()[a].len() ==> (#[trigger] adj.deep_view()[a][k]) < n,
            forall|a: usize, j: usize| a < i && j < n ==> (adj.deep_view()[a as int].contains(j) <==> follows(g, nodes.deep_view()[a as int], nodes.deep_view()[j as int])),
        decreases n - i,
    {
        let ghost nv = nodes.deep_view();
        let mut row: Vec<usize> = Vec::new();
        // The entry for this node, if any.
        let mut e: usize = 0;
        let mut found: Option<usize> = None;
        while e < graph.edges.len()
            invariant
                g == graph.view_edges(),
                e <= graph.edges@.len(),
                i < n,
                n == nodes@.len(),
                nv == nodes.deep_view(),
                found matches Some(f) ==> f < graph.edges@.len() && g[f as int].0 == nv[i as int],
                found is None ==> forall|k: int| 0 <= k < e ==> #[trigger] g[k].0 != nv[i as int],
            decreases graph.edges@.len() - e,
        {
            if found.is_none() && equals(&graph.edges[e].0, &nodes[i]) {
                found = Some(e);
            }
            e += 1;
        }
        match found {
            None => {
                proof {
                    assert forall|j: usize| j < n implies !follows(g, nv[i as int], nv[j as int]) by {
                        if follows(g, nv[i as int], nv[j as int]) {
                            let k = choose|k: int| 0 <= k < g.len() && #[trigger] g[k].0 == nv[i as int] && g[k].1.contains(nv[j as int]);
                        }
                    }
                }
            },
            Some(f) => {
                let targets = &graph.edges[f].1;
                let mut t: usize = 0;
                while t < targets.len()
                    invariant
                        g == graph.view_edges(),
                        f < graph.edges@.len(),
                        targets.deep_view() == g[f as int].1,
                        g[f as int].0 == nv[i as int],
                        i < n,
                        n == nodes@.len(),
                        nv == nodes.deep_view(),
                        nv.no_duplicates(),
                        names_all(g, nv),
                        t <= targets@.len(),
                        forall|k: int| 0 <= k < row@.len() ==> (#[trigger] row@[k]) < n,
                        forall|j: usize| j < n ==> (row@.contains(j) <==> exists|k: int| 0 <= k < t && #[trigger] targets.deep_view()[k] == nv[j as int]),
                    decreases targets@.len() - t,
                {
                    let ghost tv = targets.deep_view()[t as int];
                    proof {
                        assert(follows(g, nv[i as int], tv)) by {
                            assert(g[f as int].1[t as int] == tv);
                        }
                    }
                    match find_index(&nodes, &targets[t]) {
                        Some(j) => {
                            let ghost before_row = row@;
                            row.push(j);
                            proof {
                                assert forall|jj: usize| jj < n implies (row@.contains(jj) <==> exists|k: int| 0 <= k < t + 1 && #[trigger] targets.deep_view()[k] == nv[jj as int]) by {
                                    if row@.contains(jj) {
                                        let r = choose|r: int| 0 <= r < row@.len() && row@[r] == jj;
                                        if r < before_row.len() {
                                            assert(before_row.contains(jj));
                                        } else {
                                            assert(targets.deep_view()[t as int] == nv[jj as int]);
                                        }
                                    }
                                    if exists|k: int| 0 <= k < t + 1 && #[trigger] targets.deep_view()[k] == nv[jj as int] {
                                        let k = choose|k: int| 0 <= k < t + 1 && #[trigger] targets.deep_view()[k] == nv[jj as int];
                                        if k < t {
                                            assert(before_row.contains(jj));
                                            let r = choose|r: int| 0 <= r < before_row.len() && before_row[r] == jj;
                                            assert(row@[r] == jj);
                                        } else {
                                            assert(nv[j as int] == nv[jj as int]);
                                            assert(j == jj);
                                            assert(row@[row@.len() - 1] == jj);
                                        }
                                    }
                                }
                            }
                        },
                        None => {
                            proof {
                                assert(nv.contains(tv));
                            }
                        },
                    }
                    t += 1;
                }
                proof {
                    assert forall|j: usize| j < n implies (row@.contains(j) <==> follows(g, nv[i as int], nv[j as int])) by {
                        if follows(g, nv[i as int], nv[j as int]) {
                            let k = choose|k: int| 0 <= k < g.len() && #[trigger] g[k].0 == nv[i as int] && g[k].1.contains(nv[j as int]);
                            assert(k == f);
                            let s = choose|s: int| 0 <= s < g[f as int].1.len() && g[f as int].1[s] == nv[j as int];
                            assert(targets.deep_view()[s] == nv[j as int]);
                        }
                        if row@.contains(j) {
                            let s = choose|s: int| 0 <= s < targets@.len() && #[trigger] targets.deep_view()[s] == nv[j as int];
                            assert(g[f as int].1[s] == nv[j as int]);
                        }
                    }
                }
            },
        }
        let ghost before_adj = adj.deep_view();
        adj.push(row);
        proof {
            assert(row.deep_view() =~= row@);
            assert(adj.deep_view() =~= before_adj.push(row.deep_view()));
        }
        i += 1;
    }
    (nodes, adj)
}

/// Whether a blocking cycle can be reached from `start`.
pub fn detect_cycle(graph: &DependencyGraph, start: &str) -> (r: bool)
    requires
        graph.well_formed(),
    ensures
        r == blocking_cycle_from(graph.view_edges(), start@),
{
    let (nodes, adj) = renumber(graph, start);
    let found = cycle_reachable_from(&adj, 0);
    proof {
        let g = graph.view_edges();
        let nv = nodes.deep_view();
        let a = adj.deep_view();
        if found {
            let v = choose|v: usize| #[trigger] reaches(a, 0, v) && on_cycle(a, v);
            let p = choose|p: Seq<usize>| #[trigger] is_walk(a, p) && p[0] == 0 && p.last() == v;
            let c = choose|c: Seq<usize>| #[trigger] is_walk(a, c) && c.len() >= 2 && c[0] == v && c.last() == v;
            assert forall|k: int| 0 <= k < p.len() implies #[trigger] p[k] < nv.len() by {
                if k > 0 {
                    assert(edge(a, p[k - 1], p[k]));
                    let s = choose|s: int| 0 <= s < a[p[k - 1] as int].len() && #[trigger] a[p[k - 1] as int][s] == p[k];
                }
            }
            assert forall|k: int| 0 <= k < c.len() implies #[trigger] c[k] < nv.len() by {
                if k > 0 {
                    assert(edge(a, c[k - 1], c[k]));
                    let s = choose|s: int| 0 <= s < a[c[k - 1] as int].len() && #[trigger] a[c[k - 1] as int][s] == c[k];
                } else {
                    assert(c[0] == p.last());
                }
            }
            lemma_walk_to_chain(g, nv, a, p);
            lemma_walk_to_chain(g, nv, a, c);
            let ps = p.map_values(|x: usize| nv[x as int]);
            let cs = c.map_values(|x: usize| nv[x as int]);
            assert(is_chain(g, ps) && is_chain(g, cs) && ps[0] == start@ && cs.len() >= 2 && cs[0] == ps.last()
                && cs.last() == ps.last());
        } else {
            if blocking_cycle_from(g, start@) {
                let (ps, cs) = choose|p: Seq<Seq<char>>, c: Seq<Seq<char>>|
                    #[trigger] is_chain(g, p) && #[trigger] is_chain(g, c) && p[0] == start@ && c.len() >= 2
                        && c[0] == p.last() && c.last() == p.last();
                assert(nv.contains(ps[0])) by {
                    assert(nv[0] == start@);
                }
                let p = lemma_chain_to_walk(g, nv, a, ps);
                assert(nv.contains(cs[0])) by {
                    assert(nv[p[p.len() - 1] as int] == ps.last());
                }
                let c = lemma_chain_to_walk(g, nv, a, cs);
                assert(p[0] == 0) by {
                    assert(nv[p[0] as int] == nv[0]);
                }
                assert(c[0] == p.last()) by {
                    assert(nv[c[0] as int] == nv[p.last() as int]);
                }
                assert(c.last() == p.last()) by {
                    assert(nv[c.last() as int] == nv[p.last() as int]);
                }
                assert(reaches(a, 0, p.last()));
                assert(on_cycle(a, p.last()));
                assert(cycle_reachable(a, 0));
            }
        }
    }
    found
}

/// Identifiers that a list of dependencies blocks on, in order.
pub open spec fn blocked_targets(links: Seq<DependencyLink>) -> Seq<Seq<char>>
    decreases links.len(),
{
    if links.len() == 0 {
        seq![]
    } else {
        let rest = blocked_targets(links.drop_last());
        if links.last().dependency_type@ == blocked_by_text() {
            rest.push(links.last().target@)
        } else {
            rest
        }
    }
}

/// Position of the entry for `key`, or -1 when the graph has none.
pub open spec fn entry_index(g: Seq<(Seq<char>, Seq<Seq<char>>)>, key: Seq<char>) -> int
    decreases g.len(),
{
    if g.len() == 0 {
        -1
    } else if g.last().0 == key {
        g.len() - 1
    } else {
        entry_index(g.drop_last(), key)
    }
}

/// The graph with the successors of `key` replaced by `targets`.
pub open spec fn set_entry(
    g: Seq<(Seq<char>, Seq<Seq<char>>)>,
    key: Seq<char>,
    targets: Seq<Seq<char>>,
) -> Seq<(Seq<char>, Seq<Seq<char>>)> {
    let i = entry_index(g, key);
    if i >= 0 {
        g.update(i, (key, targets))
    } else {
        g.push((key, targets))
    }
}

/// The graph with one more successor, `target`, of `key`.
pub open spec fn add_edge(
    g: Seq<(Seq<char>, Seq<Seq<char>>)>,
    key: Seq<char>,
    target: Seq<char>,
) -> Seq<(Seq<char>, Seq<Seq<char>>)> {
    let i = entry_index(g, key);
    if i >= 0 {
        g.update(i, (key, g[i].1.push(target)))
    } else {
        g.push((key, seq![target]))
    }
}

/// The blocking graph of a list of issues: each issue with blocking
/// dependencies maps its identifier to the identifiers it is blocked by; a
/// later issue with the same identifier replaces an earlier one.
pub open spec fn graph_of(issues: Seq<IssueData>) -> Seq<(Seq<char>, Seq<Seq<char>>)>
    decreases issues.len(),
{
    if issues.len() == 0 {
        seq![]
    } else {
        let g = graph_of(issues.drop_last());
        let x = issues.last();
        let ts = blocked_targets(x.dependencies@);
        if ts.len() > 0 {
            set_entry(g, x.identifier@, ts)
        } else {
            g
        }
    }
}

proof fn lemma_entry_index(g: Seq<(Seq<char>, Seq<Seq<char>>)>, key: Seq<char>)
    requires
        distinct_nodes(g),
    ensures
        -1 <= entry_index(g, key) < g.len(),
        entry_index(g, key) >= 0 ==> g[entry_index(g, key)].0 == key,
        entry_index(g, key) == -1 <==> forall|i: int| 0 <= i < g.len() ==> #[trigger] g[i].0 != key,
        forall|i: int| 0 <= i < g.len() && #[trigger] g[i].0 == key ==> i == entry_index(g, key),
    decreases g.len(),
{
    if g.len() > 0 {
        let h = g.drop_last();
        assert(distinct_nodes(h)) by {
            assert forall|i: int, j: int| 0 <= i < j < h.len() implies #[trigger] h[i].0 != #[trigger] h[j].0 by {
                assert(h[i] == g[i] && h[j] == g[j]);
            }
        }
        lemma_entry_index(h, key);
        assert forall|i: int| 0 <= i < h.len() implies #[trigger] h[i] == g[i] by {}
        if g.last().0 == key {
            assert forall|i: int| 0 <= i < g.len() && #[trigger] g[i].0 == key implies i == g.len() - 1 by {
                if i < g.len() - 1 {
                    assert(g[i].0 != g[g.len() - 1].0);
                }
            }
            assert(g[g.len() - 1].0 == key);
        } else {
            assert forall|i: int| 0 <= i < g.len() && #[trigger] g[i].0 == key implies i == entry_index(g, key) by {
                assert(i < g.len() - 1);
                assert(h[i].0 == key);
            }
            if entry_index(h, key) == -1 {
                assert forall|i: int| 0 <= i < g.len() implies #[trigger] g[i].0 != key by {
                    if i < g.len() - 1 {
                        assert(h[i] == g[i]);
                    }
                }
            } else {
                let e = entry_index(h, key);
                assert(h[e] == g[e]);
                assert(g[e].0 == key);
            }
        }
    }
}

proof fn lemma_set_entry_distinct(g: Seq<(Seq<char>, Seq<Seq<char>>)>, key: Seq<char>, targets: Seq<Seq<char>>)
    requires
        distinct_nodes(g),
    ensures
        distinct_nodes(set_entry(g, key, targets)),
{
    lemma_entry_index(g, key);
    let h = set_entry(g, key, targets);
    assert forall|i: int, j: int| 0 <= i < j < h.len() implies #[trigger] h[i].0 != #[trigger] h[j].0 by {
        if entry_index(g, key) < 0 {
            if j == g.len() {
                assert(g[i].0 != key);
            } else {
                assert(g[i].0 != g[j].0);
            }
        } else {
            assert(g[i].0 != g[j].0);
        }
    }
}

proof fn lemma_add_edge(g: Seq<(Seq<char>, Seq<Seq<char>>)>, key: Seq<char>, target: Seq<char>)
    requires
        distinct_nodes(g),
    ensures
        distinct_nodes(add_edge(g, key, target)),
        forall|a: Seq<char>, b: Seq<char>|
            #[trigger] follows(add_edge(g, key, target), a, b) <==> follows(g, a, b) || (a == key && b == target),
{
    lemma_entry_index(g, key);
    let h = add_edge(g, key, target);
    let e = entry_index(g, key);
    assert forall|i: int, j: int| 0 <= i < j < h.len() implies #[trigger] h[i].0 != #[trigger] h[j].0 by {
        if e < 0 {
            if j == g.len() {
                assert(g[i].0 != key);
            } else {
                assert(g[i].0 != g[j].0);
            }
        } else {
            assert(g[i].0 != g[j].0);
        }
    }
    assert forall|a: Seq<char>, b: Seq<char>|
        #[trigger] follows(h, a, b) <==> follows(g, a, b) || (a == key && b == target) by {
        if follows(h, a, b) {
            let i = choose|i: int| 0 <= i < h.len() && #[trigger] h[i].0 == a && h[i].1.contains(b);
            if i == e {
                if b != target {
                    let k = choose|k: int| 0 <= k < h[i].1.len() && h[i].1[k] == b;
                    assert(g[i].1[k] == b);
                    assert(follows(g, a, b));
                }
            } else if i < g.len() {
                assert(g[i] == h[i]);
                assert(follows(g, a, b));
            } else {
                assert(h[i].1 == seq![target]);
                assert(b == h[i].1[0]);
            }
        }
        if follows(g, a, b) {
            let i = choose|i: int| 0 <= i < g.len() && #[trigger] g[i].0 == a && g[i].1.contains(b);
            if i == e {
                let k = choose|k: int| 0 <= k < g[i].1.len() && g[i].1[k] == b;
                assert(h[i].1[k] == b);
            } else {
                assert(h[i] == g[i]);
            }
            assert(h[i].0 == a && h[i].1.contains(b));
        }
        if a == key && b == target {
            if e >= 0 {
                assert(h[e].1[h[e].1.len() - 1] == b);
                assert(h[e].0 == a && h[e].1.contains(b));
            } else {
                assert(h[g.len() as int].1[0] == b);
                assert(h[g.len() as int].0 == a && h[g.len() as int].1.contains(b));
            }
        }
    }
}

proof fn lemma_graph_of_distinct(issues: Seq<IssueData>)
    ensures
        distinct_nodes(graph_of(issues)),
    decreases issues.len(),
{
    if issues.len() > 0 {
        lemma_graph_of_distinct(issues.drop_last());
        let x = issues.last();
        lemma_set_entry_distinct(graph_of(issues.drop_last()), x.identifier@, blocked_targets(x.dependencies@));
    }
}

/// The identifiers that the issue is blocked by, in order.
fn blocked_targets_of(issue: &IssueData) -> (r: Vec<String>)
    ensures
        r.deep_view() == blocked_targets(issue.dependencies@),
{
    let mut r: Vec<String> = Vec::new();
    let mut i: usize = 0;
    while i < issue.dependencies.len()
        invariant
            i <= issue.dependencies@.len(),
            r.deep_view() == blocked_targets(issue.dependencies@.subrange(0, i as int)),
        decreases issue.dependencies@.len() - i,
    {
        let ghost before = r.deep_view();
        let link = &issue.dependencies[i];
        assert(issue.dependencies@.subrange(0, i + 1).drop_last() =~= issue.dependencies@.subrange(0, i as int));
        if equals(&link.dependency_type, blocked_by()) {
            r.push(link.target.clone());
            assert(r.deep_view() =~= before.push(link.target@));
        }
        i += 1;
    }
    assert(issue.dependencies@.subrange(0, issue.dependencies@.len() as int) =~= issue.dependencies@);
    r
}

/// Position of the entry for `key`.
fn find_entry(graph: &DependencyGraph, key: &str) -> (r: Option<usize>)
    requires
        graph.well_formed(),
    ensures
        match r {
            Some(i) => i as int == entry_index(graph.view_edges(), key@),
            None => entry_index(graph.view_edges(), key@) == -1,
        },
{
    proof {
        lemma_entry_index(graph.view_edges(), key@);
    }
    let mut i: usize = 0;
    while i < graph.edges.len()
        invariant
            i <= graph.edges@.len(),
            graph.well_formed(),
            graph.view_edges().len() == graph.edges@.len(),
            forall|k: int| 0 <= k < i ==> #[trigger] graph.view_edges()[k].0 != key@,
        decreases graph.edges@.len() - i,
    {
        if equals(&graph.edges[i].0, key) {
            proof {
                lemma_entry_index(graph.view_edges(), key@);
                assert(graph.view_edges()[i as int].0 == key@);
            }
            return Some(i);
        }
        i += 1;
    }
    None
}

/// Build the blocking graph of a list of issues.
pub fn build_dependency_graph(issues: &[IssueData]) -> (graph: DependencyGraph)
    ensures
        graph.well_formed(),
        graph.view_edges() == graph_of(issues@),
{
    let mut graph = DependencyGraph { edges: Vec::new() };
    assert(graph.view_edges() =~= graph_of(issues@.subrange(0, 0)));
    let mut i: usize = 0;
    while i < issues.len()
        invariant
            i <= issues@.len(),
            graph.well_formed(),
            graph.view_edges() == graph_of(issues@.subrange(0, i as int)),
        decreases issues@.len() - i,
    {
        let issue = &issues[i];
        let targets = blocked_targets_of(issue);
        let ghost g = graph.view_edges();
        assert(issues@.subrange(0, i + 1).drop_last() =~= issues@.subrange(0, i as int));
        assert(issues@.subrange(0, i + 1).last() == issue);
        if targets.len() > 0 {
            proof {
                lemma_entry_index(g, issue.identifier@);
                lemma_set_entry_distinct(g, issue.identifier@, targets.deep_view());
            }
            match find_entry(&graph, &issue.identifier) {
                Some(k) => {
                    graph.edges.set(k, (issue.identifier.clone(), targets));
                    assert(graph.view_edges() =~= g.update(k as int, (issue.identifier@, blocked_targets(issue.dependencies@))));
                },
                None => {
                    graph.edges.push((issue.identifier.clone(), targets));
                    assert(graph.view_edges() =~= g.push((issue.identifier@, blocked_targets(issue.dependencies@))));
                },
            }
        }
        i += 1;
    }
    assert(issues@.subrange(0, issues@.len() as int) =~= issues@);
    graph
}

/// Reject a blocking dependency of `source_id` on `target_id` that would let
/// a blocking cycle be reached from `source_id`.
pub fn ensure_no_cycle(issues: &[IssueData], source_id: &str, target_id: &str) -> (r: Result<(), KanbusError>)
    ensures
        r is Ok <==> !blocking_cycle_from(add_edge(graph_of(issues@), source_id@, target_id@), source_id@),
        r matches Err(e) ==> e == KanbusError::IssueOperation(e->IssueOperation_0)
            && e->IssueOperation_0@ == "cycle detected"@,
        source_id@ != target_id@ && (forall|i: int, k: int|
            0 <= i < issues@.len() && 0 <= k < issues@[i].dependencies@.len() ==> (#[trigger] issues@[i].dependencies@[
                k]).dependency_type@ != blocked_by_text()) ==> r is Ok,
{
    proof {
        if source_id@ != target_id@ && (forall|i: int, k: int|
            0 <= i < issues@.len() && 0 <= k < issues@[i].dependencies@.len() ==> (#[trigger] issues@[i].dependencies@[
                k]).dependency_type@ != blocked_by_text()) {
            lemma_no_blocking_links_no_cycle(issues@, source_id@, target_id@);
        }
    }
    let mut graph = build_dependency_graph(issues);
    let ghost g = graph.view_edges();
    proof {
        lemma_entry_index(g, source_id@);
        lemma_add_edge(g, source_id@, target_id@);
    }
    match find_entry(&graph, source_id) {
        Some(k) => {
            let ghost old_edges = graph.edges@;
            let mut entry = graph.edges.remove(k);
            assert(entry == old_edges[k as int]);
            entry.1.push(owned(target_id));
            assert(entry.1.deep_view() =~= old_edges[k as int].1.deep_view().push(target_id@));
            assert(entry.0@ == source_id@);
            graph.edges.insert(k, entry);
            assert(graph.edges@ =~= old_edges.update(k as int, entry));
            assert(graph.view_edges() =~= add_edge(g, source_id@, target_id@));
        },
        None => {
            let ghost old_edges = graph.edges@;
            let mut targets: Vec<String> = Vec::new();
            targets.push(owned(target_id));
            assert(targets.deep_view() =~= seq![target_id@]);
            let entry = (owned(source_id), targets);
            graph.edges.push(entry);
            assert(graph.edges@ =~= old_edges.push(entry));
            assert(graph.view_edges() =~= add_edge(g, source_id@, target_id@));
        },
    }
    if detect_cycle(&graph, source_id) {
        let e = issue_error("cycle detected");
        proof {
            reveal_strlit("cycle detected");
        }
        return Err(e);
    }
    Ok(())
}

/// No walk of one or more edges returns to where it began.
pub open spec fn acyclic(g: Seq<(Seq<char>, Seq<Seq<char>>)>) -> bool {
    forall|c: Seq<Seq<char>>| #[trigger] is_chain(g, c) && c.len() >= 2 ==> c[0] != c.last()
}

proof fn lemma_rotate_cycle(g: Seq<(Seq<char>, Seq<Seq<char>>)>, c: Seq<Seq<char>>, k: int) -> (r: Seq<Seq<char>>)
    requires
        is_chain(g, c),
        c.len() >= 2,
        c[0] == c.last(),
        0 <= k < c.len() - 1,
    ensures
        is_chain(g, r),
        r.len() >= 2,
        r[0] == c[k],
        r.last() == c[k],
{
    let n = c.len();
    let r = c.subrange(k, n as int) + c.subrange(1, k + 1);
    assert(r.len() == n);
    assert forall|j: int| 0 <= j < r.len() - 1 implies follows(g, #[trigger] r[j], r[j + 1]) by {
        if j < n - k - 1 {
            assert(r[j] == c[k + j] && r[j + 1] == c[k + j + 1]);
        } else if j == n - k - 1 {
            assert(r[j] == c[n - 1]);
            assert(r[j + 1] == c[1]);
            assert(follows(g, c[0], c[1]));
        } else {
            assert(r[j] == c[j - (n - k) + 1]);
            assert(r[j + 1] == c[j - (n - k) + 2]);
            assert(follows(g, c[j - (n - k) + 1], c[j - (n - k) + 2]));
        }
    }
    if k == 0 {
        assert(r.last() == c[n - 1]);
    } else {
        assert(r.last() == c[k]);
    }
    r
}

/// A blocking dependency that passes the cycle check never closes a cycle:
/// when the blocking graph had no cycle before the new edge from `source`
/// to `target`, it has none after it.
pub proof fn lemma_accepted_dependency_keeps_graph_acyclic(
    issues: Seq<IssueData>,
    source: Seq<char>,
    target: Seq<char>,
)
    requires
        acyclic(graph_of(issues)),
        !blocking_cycle_from(add_edge(graph_of(issues), source, target), source),
    ensures
        acyclic(add_edge(graph_of(issues), source, target)),
{
    let g = graph_of(issues);
    let h = add_edge(g, source, target);
    lemma_graph_of_distinct(issues);
    lemma_add_edge(g, source, target);
    assert forall|c: Seq<Seq<char>>| #[trigger] is_chain(h, c) && c.len() >= 2 implies c[0] != c.last() by {
        if c[0] == c.last() {
            if forall|k: int| 0 <= k < c.len() - 1 ==> follows(g, #[trigger] c[k], c[k + 1]) {
                assert(is_chain(g, c));
            } else {
                let k = choose|k: int| 0 <= k < c.len() - 1 && !follows(g, #[trigger] c[k], c[k + 1]);
                assert(follows(h, c[k], c[k + 1]));
                assert(c[k] == source);
                let r = lemma_rotate_cycle(h, c, k);
                let p = seq![source];
                assert(is_chain(h, p));
                assert(p[0] == source && r[0] == p.last() && r.last() == p.last());
                assert(blocking_cycle_from(h, source));
            }
        }
    }
}

/// An issue operation error carrying `message`.
pub open spec fn issue_error_with(e: KanbusError, message: Seq<char>) -> bool {
    e is IssueOperation && e->IssueOperation_0@ == message
}

/// The issue names `id` as its parent.
pub open spec fn parent_is(issue: IssueData, id: Seq<char>) -> bool {
    issue.parent matches Some(p) && p@ == id
}

/// The issue with its dependency list replaced.
pub open spec fn with_dependencies(issue: IssueData, dependencies: Vec<DependencyLink>) -> IssueData {
    IssueData { dependencies, ..issue }
}

/// `after` is `before` with one more link at its end.
pub open spec fn appends_link(
    before: Seq<DependencyLink>,
    after: Seq<DependencyLink>,
    target: Seq<char>,
    dependency_type: Seq<char>,
) -> bool {
    &&& after.len() == before.len() + 1
    &&& after.subrange(0, before.len() as int) == before
    &&& after.last().target@ == target
    &&& after.last().dependency_type@ == dependency_type
}

/// Add a dependency of `source_id` on `target_id`.
///
/// `source` and `target` are the two issues as loaded from the project (or
/// the error that loading gave), and `project_issues` the project's issues
/// from which the blocking graph is built; the latter is read only for a
/// blocking dependency. The result is the updated source issue, to be
/// written back by the caller; an existing identical dependency leaves the
/// issue unchanged.
pub fn add_dependency(
    source_id: &str,
    target_id: &str,
    dependency_type: &str,
    source: Result<IssueData, KanbusError>,
    target: Result<IssueData, KanbusError>,
    project_issues: Result<Vec<IssueData>, KanbusError>,
) -> (r: Result<IssueData, KanbusError>)
    ensures
        !allowed_dependency_type(dependency_type@) ==> (r matches Err(e) && issue_error_with(e, "invalid dependency type"@)),
        allowed_dependency_type(dependency_type@) && source is Err ==> r == Err::<IssueData, KanbusError>(source->Err_0),
        allowed_dependency_type(dependency_type@) && source is Ok && target is Err ==> r == Err::<IssueData, KanbusError>(target->Err_0),
        allowed_dependency_type(dependency_type@) && source is Ok && target is Ok ==> ({
            let s = source->Ok_0;
            let t = target->Ok_0;
            let blocking = dependency_type@ == blocked_by_text();
            if blocking && parent_is(s, target_id@) {
                r matches Err(e) && issue_error_with(e, "circular dependency: cannot block on parent"@)
            } else if blocking && parent_is(t, source_id@) {
                r matches Err(e) && issue_error_with(e, "circular dependency: cannot block on child"@)
            } else if blocking && project_issues is Err {
                r == Err::<IssueData, KanbusError>(project_issues->Err_0)
            } else if blocking && blocking_cycle_from(
                add_edge(graph_of(project_issues->Ok_0@), source_id@, target_id@),
                source_id@,
            ) {
                r matches Err(e) && issue_error_with(e, "cycle detected"@)
            } else if has_link(s.dependencies@, target_id@, dependency_type@) {
                r == Ok::<IssueData, KanbusError>(s)
            } else {
                r matches Ok(u) && u == with_dependencies(s, u.dependencies) && appends_link(
                    s.dependencies@,
                    u.dependencies@,
                    target_id@,
                    dependency_type@,
                )
            }
        }),
{
    if let Err(e) = validate_dependency_type(dependency_type) {
        proof {
            reveal_strlit("invalid dependency type");
        }
        return Err(e);
    }
    let source = match source {
        Ok(issue) => issue,
        Err(e) => return Err(e),
    };
    let target = match target {
        Ok(issue) => issue,
        Err(e) => return Err(e),
    };
    let blocking = equals(dependency_type, blocked_by());
    if blocking {
        if let Some(parent) = &source.parent {
            if equals(parent, target_id) {
                let e = issue_error("circular dependency: cannot block on parent");
                proof {
                    reveal_strlit("circular dependency: cannot block on parent");
                }
                return Err(e);
            }
        }
        if let Some(parent) = &target.parent {
            if equals(parent, source_id) {
                let e = issue_error("circular dependency: cannot block on child");
                proof {
                    reveal_strlit("circular dependency: cannot block on child");
                }
                return Err(e);
            }
        }
        let issues = match project_issues {
            Ok(issues) => issues,
            Err(e) => return Err(e),
        };
        if let Err(e) = ensure_no_cycle(&issues, source_id, target_id) {
            proof {
                reveal_strlit("cycle detected");
            }
            return Err(e);
        }
    }
    if has_dependency(&source, target_id, dependency_type) {
        return Ok(source);
    }
    let mut dependencies = source.dependencies;
    let ghost before = dependencies@;
    dependencies.push(DependencyLink { target: owned(target_id), dependency_type: owned(dependency_type) });
    assert(dependencies@.subrange(0, before.len() as int) =~= before);
    Ok(IssueData { dependencies, ..source })
}

/// The links of the list other than those with the given target and type.
pub open spec fn without_link(
    links: Seq<DependencyLink>,
    target: Seq<char>,
    dependency_type: Seq<char>,
) -> Seq<DependencyLink>
    decreases links.len(),
{
    if links.len() == 0 {
        seq![]
    } else {
        let rest = without_link(links.drop_last(), target, dependency_type);
        let x = links.last();
        if x.target@ == target && x.dependency_type@ == dependency_type {
            rest
        } else {
            rest.push(x)
        }
    }
}

/// Remove every dependency of `source_id` on `target_id` of the given type.
///
/// `source` is the issue as loaded from the project (or the error that
/// loading gave); the result is the updated issue, to be written back by the
/// caller.
pub fn remove_dependency(
    source_id: &str,
    target_id: &str,
    dependency_type: &str,
    source: Result<IssueData, KanbusError>,
) -> (r: Result<IssueData, KanbusError>)
    ensures
        !allowed_dependency_type(dependency_type@) ==> (r matches Err(e) && issue_error_with(e, "invalid dependency type"@)),
        allowed_dependency_type(dependency_type@) && source is Err ==> r == Err::<IssueData, KanbusError>(source->Err_0),
        allowed_dependency_type(dependency_type@) && source is Ok ==> (r matches Ok(u) && u == with_dependencies(
            source->Ok_0,
            u.dependencies,
        ) && u.dependencies@ == without_link(source->Ok_0.dependencies@, target_id@, dependency_type@)),
{
    if let Err(e) = validate_dependency_type(dependency_type) {
        proof {
            reveal_strlit("invalid dependency type");
        }
        return Err(e);
    }
    let source = match source {
        Ok(issue) => issue,
        Err(e) => return Err(e),
    };
    let mut kept: Vec<DependencyLink> = Vec::new();
    let mut i: usize = 0;
    while i < source.dependencies.len()
        invariant
            i <= source.dependencies@.len(),
            kept@ == without_link(source.dependencies@.subrange(0, i as int), target_id@, dependency_type@),
        decreases source.dependencies@.len() - i,
    {
        let link = &source.dependencies[i];
        assert(source.dependencies@.subrange(0, i + 1).drop_last() =~= source.dependencies@.subrange(0, i as int));
        if !(equals(&link.target, target_id) && equals(&link.dependency_type, dependency_type)) {
            kept.push(DependencyLink { target: link.target.clone(), dependency_type: link.dependency_type.clone() });
        }
        i += 1;
    }
    assert(source.dependencies@.subrange(0, source.dependencies@.len() as int) =~= source.dependencies@);
    Ok(IssueData { dependencies: kept, ..source })
}

/// Adding a dependency is idempotent: once a link is appended, the issue
/// has it, so adding the same dependency again leaves the issue unchanged.
pub proof fn lemma_added_dependency_is_present(
    before: Seq<DependencyLink>,
    after: Seq<DependencyLink>,
    target: Seq<char>,
    dependency_type: Seq<char>,
)
    requires
        appends_link(before, after, target, dependency_type),
    ensures
        has_link(after, target, dependency_type),
{
    assert(after[after.len() - 1].target@ == target);
}

/// The status of a closed issue.
pub open spec fn closed_text() -> Seq<char> {
    seq!['c', 'l', 'o', 's', 'e', 'd']
}

/// The literal "closed".
pub fn closed() -> (r: &'static str)
    ensures
        r@ == closed_text(),
{
    let s = "closed";
    proof {
        reveal_strlit("closed");
    }
    s
}

/// An issue is ready when it is not closed and nothing blocks it.
pub open spec fn is_ready(issue: IssueData) -> bool {
    issue.status@ != closed_text() && !has_link_of_type(issue.dependencies@, blocked_by_text())
}

/// The ready issues of a list, in order.
pub open spec fn ready_issues(issues: Seq<IssueData>) -> Seq<IssueData>
    decreases issues.len(),
{
    if issues.len() == 0 {
        seq![]
    } else {
        let rest = ready_issues(issues.drop_last());
        if is_ready(issues.last()) {
            rest.push(issues.last())
        } else {
            rest
        }
    }
}

/// The issues of several projects, one project after the other.
pub open spec fn concat_all(projects: Seq<Vec<IssueData>>) -> Seq<IssueData>
    decreases projects.len(),
{
    if projects.len() == 0 {
        seq![]
    } else {
        concat_all(projects.drop_last()) + projects.last()@
    }
}

/// The issues of one project that a ready listing considers: the shared
/// issues, with the local ones added when local issues are included, or the
/// local ones alone (none when the project has no local directory) when only
/// local issues are asked for.
pub fn merge_local_issues(
    shared: Vec<IssueData>,
    local: Option<Vec<IssueData>>,
    include_local: bool,
    local_only: bool,
) -> (r: Vec<IssueData>)
    ensures
        !(include_local || local_only) ==> r@ == shared@,
        (include_local || local_only) && local_only ==> r@ == (match local {
            Some(l) => l@,
            None => Seq::<IssueData>::empty(),
        }),
        (include_local || local_only) && !local_only ==> r@ == (match local {
            Some(l) => shared@ + l@,
            None => shared@,
        }),
{
    let mut issues = shared;
    if include_local || local_only {
        match local {
            Some(mut l) => {
                if local_only {
                    issues = l;
                } else {
                    issues.append(&mut l);
                }
            },
            None => {
                if local_only {
                    issues = Vec::new();
                }
            },
        }
    }
    issues
}

/// List the issues that are ready: neither closed nor blocked.
///
/// `projects` holds the issues of each project that was discovered (or the
/// error that discovery or loading gave), in project order.
pub fn list_ready_issues(
    include_local: bool,
    local_only: bool,
    projects: Result<Vec<Vec<IssueData>>, KanbusError>,
) -> (r: Result<Vec<IssueData>, KanbusError>)
    ensures
        local_only && !include_local ==> (r matches Err(e) && issue_error_with(e, "local-only conflicts with no-local"@)),
        !(local_only && !include_local) && projects is Err ==> r == Err::<Vec<IssueData>, KanbusError>(projects->Err_0),
        !(local_only && !include_local) && projects is Ok ==> (if projects->Ok_0@.len() == 0 {
            r matches Err(e) && issue_error_with(e, "project not initialized"@)
        } else {
            r matches Ok(v) && v@ == ready_issues(concat_all(projects->Ok_0@))
        }),
        r matches Ok(v) ==> forall|x: IssueData|
            #[trigger] v@.contains(x) ==> x.status@ != closed_text() && forall|k: int|
                0 <= k < x.dependencies@.len() ==> (#[trigger] x.dependencies@[k]).dependency_type@ != blocked_by_text(),
        r matches Ok(v) ==> forall|p: int, i: int|
            0 <= p < projects->Ok_0@.len() && 0 <= i < projects->Ok_0@[p]@.len() && (
            #[trigger] projects->Ok_0@[p]@[i]).status@ != closed_text() && (forall|k: int|
                0 <= k < projects->Ok_0@[p]@[i].dependencies@.len() ==> (
                #[trigger] projects->Ok_0@[p]@[i].dependencies@[k]).dependency_type@ != blocked_by_text()) ==> v@.contains(
                projects->Ok_0@[p]@[i],
            ),
{
    if local_only && !include_local {
        let e = issue_error("local-only conflicts with no-local");
        proof {
            reveal_strlit("local-only conflicts with no-local");
        }
        return Err(e);
    }
    let mut projects = match projects {
        Ok(p) => p,
        Err(e) => return Err(e),
    };
    if projects.len() == 0 {
        let e = issue_error("project not initialized");
        proof {
            reveal_strlit("project not initialized");
        }
        return Err(e);
    }
    let ghost all = projects@;
    let n = projects.len();
    let mut issues: Vec<IssueData> = Vec::new();
    let mut k: usize = 0;
    while projects.len() > 0
        invariant
            n == all.len(),
            k + projects@.len() == all.len(),
            projects@ == all.subrange(k as int, all.len() as int),
            issues@ == concat_all(all.subrange(0, k as int)),
        decreases projects@.len(),
    {
        let mut next = projects.remove(0);
        assert(all.subrange(0, k + 1).drop_last() =~= all.subrange(0, k as int));
        issues.append(&mut next);
        k += 1;
        assert(projects@ =~= all.subrange(k as int, all.len() as int));
    }
    assert(all.subrange(0, all.len() as int) =~= all);
    let ghost flat = issues@;
    let m = issues.len();
    let mut ready: Vec<IssueData> = Vec::new();
    let mut j: usize = 0;
    while issues.len() > 0
        invariant
            m == flat.len(),
            j + issues@.len() == flat.len(),
            issues@ == flat.subrange(j as int, flat.len() as int),
            ready@ == ready_issues(flat.subrange(0, j as int)),
        decreases issues@.len(),
    {
        let issue = issues.remove(0);
        assert(flat.subrange(0, j + 1).drop_last() =~= flat.subrange(0, j as int));
        assert(flat.subrange(0, j + 1).last() == issue);
        if !equals(&issue.status, closed()) && !is_blocked(&issue) {
            ready.push(issue);
        }
        j += 1;
        assert(issues@ =~= flat.subrange(j as int, flat.len() as int));
    }
    assert(flat.subrange(0, flat.len() as int) =~= flat);
    proof {
        lemma_ready_listing(flat);
        lemma_concat_all(all);
        assert forall|p: int, i: int|
            0 <= p < all.len() && 0 <= i < all[p]@.len() && (#[trigger] all[p]@[i]).status@ != closed_text() && (forall|
                k: int,
            | 0 <= k < all[p]@[i].dependencies@.len() ==> (#[trigger] all[p]@[i].dependencies@[k]).dependency_type@
                != blocked_by_text()) implies ready@.contains(all[p]@[i]) by {
            assert(flat.contains(all[p]@[i]));
            let j = choose|j: int| 0 <= j < flat.len() && flat[j] == all[p]@[i];
            assert(flat[j].status@ != closed_text());
        }
    }
    Ok(ready)
}

proof fn lemma_without_absent_link(links: Seq<DependencyLink>, target: Seq<char>, dependency_type: Seq<char>)
    requires
        !has_link(links, target, dependency_type),
    ensures
        without_link(links, target, dependency_type) == links,
    decreases links.len(),
{
    if links.len() > 0 {
        let d = links.drop_last();
        assert(!has_link(d, target, dependency_type)) by {
            if has_link(d, target, dependency_type) {
                let i = choose|i: int|
                    0 <= i < d.len() && #[trigger] d[i].target@ == target && d[i].dependency_type@ == dependency_type;
                assert(links[i] == d[i]);
            }
        }
        lemma_without_absent_link(d, target, dependency_type);
        let x = links.last();
        assert(!(x.target@ == target && x.dependency_type@ == dependency_type)) by {
            assert(links[links.len() - 1] == x);
        }
        assert(d.push(x) =~= links);
    }
}

/// Removing a dependency that was just added, to an issue that did not
/// have it, gives back the dependencies the issue had.
pub proof fn lemma_remove_undoes_add(
    before: Seq<DependencyLink>,
    after: Seq<DependencyLink>,
    target: Seq<char>,
    dependency_type: Seq<char>,
)
    requires
        !has_link(before, target, dependency_type),
        appends_link(before, after, target, dependency_type),
    ensures
        without_link(after, target, dependency_type) == before,
{
    assert(after.drop_last() =~= before);
    lemma_without_absent_link(before, target, dependency_type);
}

/// An issue is listed as ready exactly when its status is not "closed" and
/// none of its dependencies, at any position, is of type "blocked-by".
pub proof fn lemma_ready_listing(issues: Seq<IssueData>)
    ensures
        forall|x: IssueData|
            #[trigger] ready_issues(issues).contains(x) ==> issues.contains(x) && x.status@ != seq![
                'c',
                'l',
                'o',
                's',
                'e',
                'd',
            ] && forall|k: int|
                0 <= k < x.dependencies@.len() ==> (#[trigger] x.dependencies@[k]).dependency_type@ != seq![
                    'b',
                    'l',
                    'o',
                    'c',
                    'k',
                    'e',
                    'd',
                    '-',
                    'b',
                    'y',
                ],
        forall|i: int|
            0 <= i < issues.len() && (#[trigger] issues[i]).status@ != seq!['c', 'l', 'o', 's', 'e', 'd'] && (forall|
                k: int,
            |
                0 <= k < issues[i].dependencies@.len() ==> (#[trigger] issues[i].dependencies@[k]).dependency_type@
                    != seq!['b', 'l', 'o', 'c', 'k', 'e', 'd', '-', 'b', 'y']) ==> ready_issues(issues).contains(
                issues[i],
            ),
    decreases issues.len(),
{
    if issues.len() > 0 {
        let h = issues.drop_last();
        let x = issues.last();
        lemma_ready_listing(h);
        let rest = ready_issues(h);
        assert forall|y: IssueData| #[trigger] ready_issues(issues).contains(y) implies issues.contains(y) && y.status@
            != closed_text() && forall|k: int|
            0 <= k < y.dependencies@.len() ==> (#[trigger] y.dependencies@[k]).dependency_type@ != blocked_by_text() by {
            if rest.contains(y) {
                let j = choose|j: int| 0 <= j < h.len() && h[j] == y;
                assert(issues[j] == y);
            } else {
                assert(is_ready(x));
                assert(ready_issues(issues) == rest.push(x));
                let j = choose|j: int| 0 <= j < rest.push(x).len() && rest.push(x)[j] == y;
                assert(y == x);
                assert(issues[issues.len() - 1] == x);
                assert forall|k: int| 0 <= k < y.dependencies@.len() implies (#[trigger] y.dependencies@[k]).dependency_type@
                    != blocked_by_text() by {
                    if y.dependencies@[k].dependency_type@ == blocked_by_text() {
                        assert(has_link_of_type(x.dependencies@, blocked_by_text()));
                    }
                }
            }
        }
        assert forall|i: int|
            0 <= i < issues.len() && (#[trigger] issues[i]).status@ != closed_text() && (forall|k: int|
                0 <= k < issues[i].dependencies@.len() ==> (#[trigger] issues[i].dependencies@[k]).dependency_type@
                    != blocked_by_text()) implies ready_issues(issues).contains(issues[i]) by {
            if i < h.len() {
                assert(h[i] == issues[i]);
                assert(rest.contains(issues[i]));
                if is_ready(x) {
                    let j = choose|j: int| 0 <= j < rest.len() && rest[j] == issues[i];
                    assert(rest.push(x)[j] == issues[i]);
                }
            } else {
                assert(issues[i] == x);
                assert(!has_link_of_type(x.dependencies@, blocked_by_text()));
                assert(ready_issues(issues) == rest.push(x));
                assert(rest.push(x)[rest.len() as int] == x);
            }
        }
    }
}

/// A blocking target comes from a "blocked-by" link, and every
/// "blocked-by" link gives one; links of other types give none.
pub proof fn lemma_blocked_targets(links: Seq<DependencyLink>, t: Seq<char>)
    ensures
        blocked_targets(links).contains(t) <==> exists|k: int|
            0 <= k < links.len() && (#[trigger] links[k]).target@ == t && links[k].dependency_type@ == seq![
                'b',
                'l',
                'o',
                'c',
                'k',
                'e',
                'd',
                '-',
                'b',
                'y',
            ],
    decreases links.len(),
{
    if links.len() > 0 {
        let h = links.drop_last();
        let x = links.last();
        lemma_blocked_targets(h, t);
        let rest = blocked_targets(h);
        if blocked_targets(links).contains(t) {
            if rest.contains(t) {
                let k = choose|k: int| 0 <= k < h.len() && (#[trigger] h[k]).target@ == t && h[k].dependency_type@
                    == blocked_by_text();
                assert(links[k] == h[k]);
            } else {
                assert(x.dependency_type@ == blocked_by_text());
                let j = choose|j: int| 0 <= j < rest.push(x.target@).len() && rest.push(x.target@)[j] == t;
                assert(links[links.len() - 1] == x);
            }
        }
        if exists|k: int|
            0 <= k < links.len() && (#[trigger] links[k]).target@ == t && links[k].dependency_type@ == blocked_by_text() {
            let k = choose|k: int|
                0 <= k < links.len() && (#[trigger] links[k]).target@ == t && links[k].dependency_type@
                    == blocked_by_text();
            if k < h.len() {
                assert(h[k] == links[k]);
                assert(rest.contains(t));
                if x.dependency_type@ == blocked_by_text() {
                    let j = choose|j: int| 0 <= j < rest.len() && rest[j] == t;
                    assert(rest.push(x.target@)[j] == t);
                }
            } else {
                assert(links[k] == x);
                assert(rest.push(x.target@)[rest.len() as int] == t);
            }
        }
    }
}

proof fn lemma_entry_index_range(g: Seq<(Seq<char>, Seq<Seq<char>>)>, key: Seq<char>)
    ensures
        -1 <= entry_index(g, key) < g.len(),
        entry_index(g, key) >= 0 ==> g[entry_index(g, key)].0 == key,
    decreases g.len(),
{
    if g.len() > 0 {
        lemma_entry_index_range(g.drop_last(), key);
    }
}

/// Every edge of the blocking graph comes from a "blocked-by" link: when
/// `y` follows `x`, some issue `x` has a dependency of type "blocked-by" on
/// `y`. Links of other types add no edge.
pub proof fn lemma_blocking_edges_are_blocked_by_links(issues: Seq<IssueData>, x: Seq<char>, y: Seq<char>)
    requires
        follows(graph_of(issues), x, y),
    ensures
        exists|i: int, k: int|
            0 <= i < issues.len() && 0 <= k < issues[i].dependencies@.len() && (#[trigger] issues[i]).identifier@ == x
                && (#[trigger] issues[i].dependencies@[k]).target@ == y && issues[i].dependencies@[k].dependency_type@
                == seq!['b', 'l', 'o', 'c', 'k', 'e', 'd', '-', 'b', 'y'],
    decreases issues.len(),
{
    let h = issues.drop_last();
    let last = issues.last();
    let g = graph_of(h);
    let ts = blocked_targets(last.dependencies@);
    let j = choose|j: int| 0 <= j < graph_of(issues).len() && #[trigger] graph_of(issues)[j].0 == x && graph_of(
        issues,
    )[j].1.contains(y);
    let from_last = ts.len() > 0 && graph_of(issues)[j] == (last.identifier@, ts);
    if from_last {
        lemma_blocked_targets(last.dependencies@, y);
        let k = choose|k: int|
            0 <= k < last.dependencies@.len() && (#[trigger] last.dependencies@[k]).target@ == y
                && last.dependencies@[k].dependency_type@ == blocked_by_text();
        assert(issues[issues.len() - 1] == last);
        assert(issues[issues.len() - 1].dependencies@[k].target@ == y);
    } else {
        if ts.len() > 0 {
            let e = entry_index(g, last.identifier@);
            lemma_entry_index_range(g, last.identifier@);
            if e >= 0 {
                assert(graph_of(issues) == g.update(e, (last.identifier@, ts)));
                assert(j != e);
                assert(graph_of(issues)[j] == g[j]);
            } else {
                assert(graph_of(issues) == g.push((last.identifier@, ts)));
                assert(j < g.len());
                assert(graph_of(issues)[j] == g[j]);
            }
        }
        assert(0 <= j < g.len() && g[j].0 == x && g[j].1.contains(y));
        assert(follows(g, x, y));
        lemma_blocking_edges_are_blocked_by_links(h, x, y);
        let (i, k) = choose|i: int, k: int|
            0 <= i < h.len() && 0 <= k < h[i].dependencies@.len() && (#[trigger] h[i]).identifier@ == x
                && (#[trigger] h[i].dependencies@[k]).target@ == y && h[i].dependencies@[k].dependency_type@
                == blocked_by_text();
        assert(issues[i] == h[i]);
        assert(issues[i].dependencies@[k].target@ == y);
    }
}


/// With identifiers that are unique, every "blocked-by" link of an issue is
/// an edge of the blocking graph, from the issue to the link's target.
pub proof fn lemma_blocked_by_links_are_edges(issues: Seq<IssueData>, i: int, k: int)
    requires
        forall|a: int, b: int|
            0 <= a < b < issues.len() ==> (#[trigger] issues[a]).identifier@ != (#[trigger] issues[b]).identifier@,
        0 <= i < issues.len(),
        0 <= k < issues[i].dependencies@.len(),
        issues[i].dependencies@[k].dependency_type@ == seq!['b', 'l', 'o', 'c', 'k', 'e', 'd', '-', 'b', 'y'],
    ensures
        follows(graph_of(issues), issues[i].identifier@, issues[i].dependencies@[k].target@),
    decreases issues.len(),
{
    let h = issues.drop_last();
    let last = issues.last();
    let g = graph_of(h);
    let ts = blocked_targets(last.dependencies@);
    let x = issues[i].identifier@;
    let y = issues[i].dependencies@[k].target@;
    let e = entry_index(g, last.identifier@);
    lemma_entry_index_range(g, last.identifier@);
    if i == issues.len() - 1 {
        assert(issues[i] == last);
        assert(last.dependencies@[k].target@ == y);
        lemma_blocked_targets(last.dependencies@, y);
        assert(ts.contains(y));
        let gg = graph_of(issues);
        if e >= 0 {
            assert(gg == g.update(e, (last.identifier@, ts)));
            assert(gg[e] == (last.identifier@, ts));
            assert(gg[e].0 == x && gg[e].1.contains(y));
        } else {
            assert(gg == g.push((last.identifier@, ts)));
            assert(gg[g.len() as int] == (last.identifier@, ts));
            assert(gg[g.len() as int].0 == x && gg[g.len() as int].1.contains(y));
        }
    } else {
        assert(h[i] == issues[i]);
        assert forall|a: int, b: int| 0 <= a < b < h.len() implies (#[trigger] h[a]).identifier@ != (#[trigger] h[
            b]).identifier@ by {
            assert(h[a] == issues[a] && h[b] == issues[b]);
        }
        lemma_blocked_by_links_are_edges(h, i, k);
        let j = choose|j: int| 0 <= j < g.len() && #[trigger] g[j].0 == x && g[j].1.contains(y);
        assert(issues[i].identifier@ != issues[issues.len() - 1].identifier@);
        if ts.len() > 0 {
            if e >= 0 {
                assert(j != e);
                assert(graph_of(issues) == g.update(e, (last.identifier@, ts)));
                assert(graph_of(issues)[j] == g[j]);
            } else {
                assert(graph_of(issues) == g.push((last.identifier@, ts)));
                assert(graph_of(issues)[j] == g[j]);
            }
        }
        assert(graph_of(issues)[j].0 == x && graph_of(issues)[j].1.contains(y));
    }
}


proof fn lemma_add_edge_follows(
    g: Seq<(Seq<char>, Seq<Seq<char>>)>,
    s: Seq<char>,
    t: Seq<char>,
    a: Seq<char>,
    b: Seq<char>,
)
    requires
        follows(add_edge(g, s, t), a, b),
    ensures
        follows(g, a, b) || (a == s && b == t),
{
    let ga = add_edge(g, s, t);
    let e = entry_index(g, s);
    lemma_entry_index_range(g, s);
    let j = choose|j: int| 0 <= j < ga.len() && #[trigger] ga[j].0 == a && ga[j].1.contains(b);
    if e >= 0 {
        assert(ga == g.update(e, (s, g[e].1.push(t))));
        if j == e {
            if b != t {
                let q = choose|q: int| 0 <= q < g[e].1.push(t).len() && g[e].1.push(t)[q] == b;
                assert(q < g[e].1.len());
                assert(g[e].1[q] == b);
                assert(g[e].0 == a && g[e].1.contains(b));
            }
        } else {
            assert(ga[j] == g[j]);
        }
    } else {
        assert(ga == g.push((s, seq![t])));
        if j < g.len() {
            assert(ga[j] == g[j]);
        } else {
            assert(ga[j] == (s, seq![t]));
        }
    }
}

/// Where no issue has a "blocked-by" link, a new blocking link between two
/// different issues closes no cycle: links of other types are no edges.
pub proof fn lemma_no_blocking_links_no_cycle(issues: Seq<IssueData>, source: Seq<char>, target: Seq<char>)
    requires
        source != target,
        forall|i: int, k: int|
            0 <= i < issues.len() && 0 <= k < issues[i].dependencies@.len() ==> (#[trigger] issues[i].dependencies@[
                k]).dependency_type@ != seq!['b', 'l', 'o', 'c', 'k', 'e', 'd', '-', 'b', 'y'],
    ensures
        !blocking_cycle_from(add_edge(graph_of(issues), source, target), source),
{
    let g = graph_of(issues);
    let ga = add_edge(g, source, target);
    assert forall|a: Seq<char>, b: Seq<char>| #[trigger] follows(ga, a, b) implies a == source && b == target by {
        lemma_add_edge_follows(g, source, target, a, b);
        if follows(g, a, b) {
            lemma_blocking_edges_are_blocked_by_links(issues, a, b);
        }
    }
    if blocking_cycle_from(ga, source) {
        let (p, c) = choose|p: Seq<Seq<char>>, c: Seq<Seq<char>>|
            #[trigger] is_chain(ga, p) && #[trigger] is_chain(ga, c) && p[0] == source && c.len() >= 2 && c[0]
                == p.last() && c.last() == p.last();
        assert(follows(ga, c[0], c[1]));
        if c.len() == 2 {
            assert(c[1] == target && c[0] == source);
        } else {
            assert(follows(ga, c[1], c[2]));
        }
    }
}


/// The issues of several projects together hold exactly the issues of each
/// of them.
pub proof fn lemma_concat_all(projects: Seq<Vec<IssueData>>)
    ensures
        forall|p: int, i: int|
            0 <= p < projects.len() && 0 <= i < projects[p]@.len() ==> concat_all(projects).contains(
                #[trigger] projects[p]@[i],
            ),
        forall|x: IssueData|
            #[trigger] concat_all(projects).contains(x) ==> exists|p: int, i: int|
                0 <= p < projects.len() && 0 <= i < projects[p]@.len() && #[trigger] projects[p]@[i] == x,
    decreases projects.len(),
{
    if projects.len() > 0 {
        let h = projects.drop_last();
        let last = projects.last()@;
        lemma_concat_all(h);
        let c = concat_all(h);
        assert(concat_all(projects) == c + last);
        assert forall|p: int, i: int| 0 <= p < projects.len() && 0 <= i < projects[p]@.len() implies concat_all(
            projects,
        ).contains(#[trigger] projects[p]@[i]) by {
            if p < h.len() {
                assert(h[p] == projects[p]);
                assert(c.contains(h[p]@[i]));
                let j = choose|j: int| 0 <= j < c.len() && c[j] == h[p]@[i];
                assert((c + last)[j] == c[j]);
            } else {
                assert((c + last)[c.len() + i] == last[i]);
            }
        }
        assert forall|x: IssueData| #[trigger] concat_all(projects).contains(x) implies exists|p: int, i: int|
            0 <= p < projects.len() && 0 <= i < projects[p]@.len() && #[trigger] projects[p]@[i] == x by {
            let j = choose|j: int| 0 <= j < (c + last).len() && (c + last)[j] == x;
            if j < c.len() {
                assert(c[j] == x);
                assert(c.contains(x));
                let (p, i) = choose|p: int, i: int|
                    0 <= p < h.len() && 0 <= i < h[p]@.len() && #[trigger] h[p]@[i] == x;
                assert(h[p] == projects[p]);
            } else {
                assert(last[j - c.len()] == x);
                assert(projects[projects.len() - 1]@[j - c.len()] == x);
            }
        }
    }
}

} // verus!
