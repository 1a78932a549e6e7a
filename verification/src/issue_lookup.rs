//! Finding an issue of a project by its full or abbreviated identifier.

use vstd::prelude::*;
use vstd::string::*;

use crate::beads_write::{beads_id_match, issue_id_matches_beads};
use crate::error::KanbusError;
use crate::text::{join3, owned};

verus! {

/// Whether an abbreviated identifier names a full identifier: it is the
/// full identifier's display key, or a shorter prefix of it.
pub fn issue_matches(abbreviated: &str, full_id: &str) -> (r: bool)
    ensures
        r == beads_id_match(abbreviated@, full_id@),
{
    issue_id_matches_beads(abbreviated, full_id)
}

/// The identifiers among the first `n` that an abbreviation names, in
/// order.
pub open spec fn matching_ids(ids: Seq<Seq<char>>, abbreviated: Seq<char>, n: int) -> Seq<Seq<char>>
    decreases n,
{
    if n <= 0 {
        seq![]
    } else {
        let r = matching_ids(ids, abbreviated, n - 1);
        if beads_id_match(abbreviated, ids[n - 1]) {
            r.push(ids[n - 1])
        } else {
            r
        }
    }
}

/// Every identifier that an abbreviation is a shorter prefix of is among
/// the identifiers it names.
pub proof fn lemma_prefix_is_matched(ids: Seq<Seq<char>>, abbreviated: Seq<char>, n: int, k: int)
    requires
        0 <= k < n <= ids.len(),
        crate::issue_line::byte_width(abbreviated) < crate::issue_line::byte_width(ids[k]),
        abbreviated.len() <= ids[k].len(),
        forall|i: int| 0 <= i < abbreviated.len() ==> #[trigger] ids[k][i] == abbreviated[i],
    ensures
        matching_ids(ids, abbreviated, n).contains(ids[k]),
    decreases n,
{
    crate::beads_write::lemma_prefix_names_identifier(abbreviated, ids[k]);
    let r = matching_ids(ids, abbreviated, n - 1);
    if k < n - 1 {
        lemma_prefix_is_matched(ids, abbreviated, n - 1, k);
        if beads_id_match(abbreviated, ids[n - 1]) {
            let j = choose|j: int| 0 <= j < r.len() && r[j] == ids[k];
            assert(r.push(ids[n - 1])[j] == ids[k]);
        }
    } else {
        assert(r.push(ids[k])[r.len() as int] == ids[k]);
    }
}

/// The identifiers (issue file names without ".json") that an abbreviated
/// identifier names, in order.
pub fn find_matching_issues(file_stems: &Vec<String>, identifier: &str) -> (r: Vec<String>)
    ensures
        r.deep_view() == matching_ids(file_stems.deep_view(), identifier@, file_stems@.len() as int),
{
    let mut matches: Vec<String> = Vec::new();
    let mut i: usize = 0;
    while i < file_stems.len()
        invariant
            i <= file_stems@.len(),
            matches.deep_view() == matching_ids(file_stems.deep_view(), identifier@, i as int),
        decreases file_stems@.len() - i,
    {
        if issue_matches(identifier, &file_stems[i]) {
            let ghost before = matches.deep_view();
            matches.push(file_stems[i].clone());
            assert(matches.deep_view() =~= before.push(file_stems.deep_view()[i as int]));
        }
        i += 1;
    }
    matches
}

/// The identifiers joined by ", ".
pub open spec fn joined_ids(ids: Seq<Seq<char>>) -> Seq<char>
    decreases ids.len(),
{
    if ids.len() == 0 {
        seq![]
    } else if ids.len() == 1 {
        ids[0]
    } else {
        joined_ids(ids.drop_last()) + ", "@ + ids.last()
    }
}

/// Resolve the identifier of the issue to load: the identifier itself when
/// its file exists (`exact_exists`), else the one file stem it abbreviates
/// among `file_stems` (or the error listing them gave).
pub fn resolve_issue_lookup(
    identifier: &str,
    exact_exists: bool,
    file_stems: Result<Vec<String>, KanbusError>,
) -> (r: Result<String, KanbusError>)
    ensures
        exact_exists ==> (r matches Ok(id) && id@ == identifier@),
        !exact_exists ==> match file_stems {
            Err(e) => r == Err::<String, KanbusError>(e),
            Ok(stems) => {
                let m = matching_ids(stems.deep_view(), identifier@, stems@.len() as int);
                if m.len() == 0 {
                    r matches Err(e) && e is IssueOperation && e->IssueOperation_0@ == "not found"@
                } else if m.len() == 1 {
                    r matches Ok(id) && id@ == m[0]
                } else {
                    r matches Err(e) && e is IssueOperation && e->IssueOperation_0@ == "ambiguous identifier, matches: "@ + joined_ids(m)
                }
            },
        },
        !exact_exists ==> (file_stems matches Ok(stems) ==> (stems@.len() == 1 && crate::issue_line::byte_width(
            identifier@,
        ) < crate::issue_line::byte_width(stems@[0]@) && identifier@.len() <= stems@[0]@.len() && (forall|i: int|
            0 <= i < identifier@.len() ==> #[trigger] stems@[0]@[i] == identifier@[i]) ==> (r matches Ok(id) && id@
            == stems@[0]@))),
{
    proof {
        if !exact_exists {
            match &file_stems {
                Ok(stems) => {
                    let ids = stems.deep_view();
                    if stems@.len() == 1 {
                        assert(ids[0] == stems@[0]@);
                        if crate::issue_line::byte_width(identifier@) < crate::issue_line::byte_width(ids[0])
                            && identifier@.len() <= ids[0].len() && (forall|i: int|
                            0 <= i < identifier@.len() ==> #[trigger] ids[0][i] == identifier@[i]) {
                            lemma_prefix_is_matched(ids, identifier@, 1, 0);
                            assert(matching_ids(ids, identifier@, 0) =~= Seq::<Seq<char>>::empty());
                        }
                    }
                },
                Err(_) => {},
            }
        }
    }
    if exact_exists {
        return Ok(owned(identifier));
    }
    let stems = match file_stems {
        Ok(s) => s,
        Err(e) => return Err(e),
    };
    let matches = find_matching_issues(&stems, identifier);
    if matches.len() == 0 {
        let m = owned("not found");
        proof {
            reveal_strlit("not found");
        }
        return Err(KanbusError::IssueOperation(m));
    }
    if matches.len() == 1 {
        return Ok(matches[0].clone());
    }
    let ghost mv = matches.deep_view();
    let mut joined = String::new();
    let mut k: usize = 0;
    while k < matches.len()
        invariant
            k <= matches@.len(),
            mv == matches.deep_view(),
            joined@ == joined_ids(mv.subrange(0, k as int)),
        decreases matches@.len() - k,
    {
        assert(mv.subrange(0, k + 1).drop_last() =~= mv.subrange(0, k as int));
        if k > 0 {
            joined.append(", ");
        }
        joined.append(&matches[k]);
        proof {
            if k == 0 {
                assert(joined@ =~= joined_ids(mv.subrange(0, 1)));
            }
        }
        k += 1;
    }
    assert(mv.subrange(0, mv.len() as int) =~= mv);
    let message = join3("ambiguous identifier, matches: ", &joined, "");
    proof {
        reveal_strlit("");
    }
    Err(KanbusError::IssueOperation(message))
}

} // verus!
