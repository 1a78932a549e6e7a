//! Choosing the one project directory that a command works on.

use vstd::prelude::*;

use crate::error::KanbusError;
use crate::text::{
    distinct_strings, join_first, joined_with, owned, push_char, sort_distinct_strings, str_lt, strictly_sorted,
};

verus! {

/// A path as text in which the separator sorts before every other
/// character: the order of such texts is the order of the paths, compared
/// component by component.
pub open spec fn path_key(p: Seq<char>) -> Seq<char> {
    p.map_values(|c: char| if c == '/' { '\0' } else { c })
}

/// The order of paths: component by component.
pub open spec fn path_lt(a: Seq<char>, b: Seq<char>) -> bool {
    str_lt(path_key(a), path_key(b))
}

/// The text has no NUL character, as no path has.
pub open spec fn nul_free(p: Seq<char>) -> bool {
    forall|i: int| 0 <= i < p.len() ==> p[i] != '\0'
}

/// The path of a key.
pub open spec fn key_path(k: Seq<char>) -> Seq<char> {
    k.map_values(|c: char| if c == '\0' { '/' } else { c })
}

proof fn lemma_key_round_trip(p: Seq<char>)
    requires
        nul_free(p),
    ensures
        key_path(path_key(p)) == p,
{
    assert(key_path(path_key(p)) =~= p);
}

proof fn lemma_key_injective(a: Seq<char>, b: Seq<char>)
    requires
        nul_free(a),
        nul_free(b),
        path_key(a) == path_key(b),
    ensures
        a == b,
{
    lemma_key_round_trip(a);
    lemma_key_round_trip(b);
}

fn key_of(p: &str) -> (r: String)
    ensures
        r@ == path_key(p@),
{
    let mut out = String::new();
    let n = p.unicode_len();
    let mut i: usize = 0;
    while i < n
        invariant
            n == p@.len(),
            i <= n,
            out@ == path_key(p@.subrange(0, i as int)),
        decreases n - i,
    {
        let c = p.get_char(i);
        push_char(&mut out, if c == '/' { '\0' } else { c });
        assert(path_key(p@.subrange(0, i + 1)) =~= path_key(p@.subrange(0, i as int)).push(
            if c == '/' { '\0' } else { c },
        ));
        i += 1;
    }
    assert(p@.subrange(0, n as int) =~= p@);
    out
}

fn path_of(k: &str) -> (r: String)
    ensures
        r@ == key_path(k@),
{
    let mut out = String::new();
    let n = k.unicode_len();
    let mut i: usize = 0;
    while i < n
        invariant
            n == k@.len(),
            i <= n,
            out@ == key_path(k@.subrange(0, i as int)),
        decreases n - i,
    {
        let c = k.get_char(i);
        push_char(&mut out, if c == '\0' { '/' } else { c });
        assert(key_path(k@.subrange(0, i + 1)) =~= key_path(k@.subrange(0, i as int)).push(
            if c == '\0' { '/' } else { c },
        ));
        i += 1;
    }
    assert(k@.subrange(0, n as int) =~= k@);
    out
}

/// Whether `s` holds each of the paths once, in path order.
pub open spec fn sorted_paths(s: Seq<Seq<char>>, paths: Set<Seq<char>>) -> bool {
    &&& s.to_set() == paths
    &&& s.no_duplicates()
    &&& forall|i: int, j: int| 0 <= i < j < s.len() ==> path_lt(#[trigger] s[i], #[trigger] s[j])
}

/// The message for more than one project.
pub open spec fn multiple_projects_message(s: Seq<Seq<char>>) -> Seq<char> {
    "multiple projects found: "@ + joined_with(s, ", "@)
        + ". Run this command from a directory with a single project/, or remove extra entries from external_projects in .taskulus.yml."@
}

/// The project directory among the ones found (canonical paths, possibly
/// repeated): the only one, or "project not initialized" when there is
/// none, or the list of them all, in path order, when there are several.
pub fn load_project_directory(projects: Vec<String>) -> (r: Result<String, KanbusError>)
    requires
        forall|i: int| 0 <= i < projects@.len() ==> nul_free(#[trigger] projects@[i]@),
    ensures
        projects.deep_view().to_set().len() == 0 ==> (r matches Err(e) && e is IssueOperation
            && e->IssueOperation_0@ == "project not initialized"@),
        projects.deep_view().to_set().len() == 1 ==> (r matches Ok(p) && projects.deep_view().to_set() == set![p@]),
        projects.deep_view().to_set().len() > 1 ==> exists|s: Seq<Seq<char>>|
            sorted_paths(s, projects.deep_view().to_set()) && (r matches Err(e) && e is IssueOperation
                && e->IssueOperation_0@ == #[trigger] multiple_projects_message(s)),
{
    let ghost all = projects.deep_view();
    let mut keys: Vec<String> = Vec::new();
    let mut i: usize = 0;
    while i < projects.len()
        invariant
            i <= projects@.len(),
            all == projects.deep_view(),
            keys@.len() == i,
            forall|q: int| 0 <= q < i ==> (#[trigger] keys@[q])@ == path_key(all[q]),
        decreases projects@.len() - i,
    {
        keys.push(key_of(projects[i].as_str()));
        i += 1;
    }
    let distinct = distinct_strings(&keys);
    let sorted = sort_distinct_strings(distinct);
    let mut paths: Vec<String> = Vec::new();
    let mut j: usize = 0;
    while j < sorted.len()
        invariant
            j <= sorted@.len(),
            paths@.len() == j,
            forall|q: int| 0 <= q < j ==> (#[trigger] paths@[q])@ == key_path(sorted@[q]@),
        decreases sorted@.len() - j,
    {
        paths.push(path_of(sorted[j].as_str()));
        j += 1;
    }
    let ghost ks = keys.deep_view();
    let ghost ss = sorted.deep_view();
    let ghost ps = paths.deep_view();
    proof {
        assert forall|q: int| 0 <= q < ks.len() implies ks[q] == path_key(all[q]) by {
            assert(ks[q] == keys@[q]@);
        }
        // every sorted key is the key of a found path, and back
        assert forall|q: int| 0 <= q < ss.len() implies exists|w: int|
            0 <= w < all.len() && #[trigger] ss[q] == path_key(all[w]) by {
            assert(ss.to_set().contains(ss[q]));
            assert(ks.to_set().contains(ss[q]));
            let w = choose|w: int| 0 <= w < ks.len() && ks[w] == ss[q];
            assert(ss[q] == path_key(all[w]));
        }
        assert forall|q: int| 0 <= q < ps.len() implies ps[q] == key_path(ss[q]) by {
            assert(ps[q] == paths@[q]@);
            assert(ss[q] == sorted@[q]@);
        }
        assert forall|q: int| 0 <= q < ps.len() implies exists|w: int|
            0 <= w < all.len() && #[trigger] ps[q] == all[w] && ss[q] == path_key(all[w]) by {
            let w = choose|w: int| 0 <= w < all.len() && ss[q] == path_key(all[w]);
            lemma_key_round_trip(all[w]);
        }
        // the found paths and the listed ones are the same set
        assert forall|x: Seq<char>| ps.to_set().contains(x) <==> all.to_set().contains(x) by {
            if ps.to_set().contains(x) {
                let q = choose|q: int| 0 <= q < ps.len() && ps[q] == x;
                let w = choose|w: int| 0 <= w < all.len() && ps[q] == all[w] && ss[q] == path_key(all[w]);
                assert(all[w] == x);
            }
            if all.to_set().contains(x) {
                let w = choose|w: int| 0 <= w < all.len() && all[w] == x;
                assert(ks[w] == path_key(x));
                assert(ks.to_set().contains(path_key(x)));
                assert(ss.to_set().contains(path_key(x)));
                let q = choose|q: int| 0 <= q < ss.len() && ss[q] == path_key(x);
                let v = choose|v: int| 0 <= v < all.len() && ps[q] == all[v] && ss[q] == path_key(all[v]);
                lemma_key_injective(all[v], x);
                assert(ps[q] == x);
            }
        }
        assert(ps.to_set() =~= all.to_set());
        // in path order, each once
        assert forall|a: int, b: int| 0 <= a < b < ps.len() implies path_lt(#[trigger] ps[a], #[trigger] ps[b]) by {
            let wa = choose|w: int| 0 <= w < all.len() && ps[a] == all[w] && ss[a] == path_key(all[w]);
            let wb = choose|w: int| 0 <= w < all.len() && ps[b] == all[w] && ss[b] == path_key(all[w]);
            assert(str_lt(ss[a], ss[b]));
        }
        assert forall|a: int, b: int| 0 <= a < ps.len() && 0 <= b < ps.len() && a != b implies ps[a] != ps[b] by {
            if a < b {
                assert(path_lt(ps[a], ps[b]));
                crate::text::lemma_str_lt_irreflexive_pub(path_key(ps[a]));
            } else {
                assert(path_lt(ps[b], ps[a]));
                crate::text::lemma_str_lt_irreflexive_pub(path_key(ps[b]));
            }
        }
        assert(sorted_paths(ps, all.to_set()));
        ps.unique_seq_to_set();
        vstd::seq_lib::seq_to_set_is_finite(all);
    }
    if paths.len() == 0 {
        return Err(KanbusError::IssueOperation(owned("project not initialized")));
    }
    if paths.len() > 1 {
        let mut message = owned("multiple projects found: ");
        message.append(join_first(&paths, paths.len(), ", ").as_str());
        message.append(
            ". Run this command from a directory with a single project/, or remove extra entries from external_projects in .taskulus.yml.",
        );
        assert(ps.take(ps.len() as int) =~= ps);
        assert(message@ == multiple_projects_message(ps));
        return Err(KanbusError::IssueOperation(message));
    }
    proof {
        assert(ps =~= seq![ps[0]]);
        assert(ps.to_set() =~= set![ps[0]]);
    }
    Ok(path_of(sorted[0].as_str()))
}

} // verus!
