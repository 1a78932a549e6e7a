//! Issue comments: identifiers, lookup by prefix, update and removal.

use vstd::prelude::*;
use vstd::string::*;

use crate::agent_metadata::{agent_provenance_is_complete, provenance_complete};
use crate::error::KanbusError;
use crate::ids::{is_uuid_v4_text, new_uuid_text};
use crate::models::{opt_agent_eq, opt_agents_equal, AgentMetadata, IssueComment, IssueData};
use crate::text::{ascii_lower, has_prefix, owned, starts_with, substring, to_ascii_lowercase, trim, trim_ws};

verus! {

/// Result of adding a comment to an issue.
pub struct IssueCommentResult {
    pub issue: IssueData,
    pub comment: IssueComment,
}

fn issue_error(message: &str) -> (e: KanbusError)
    ensures
        e == KanbusError::IssueOperation(e->IssueOperation_0),
        e->IssueOperation_0@ == message@,
{
    KanbusError::IssueOperation(owned(message))
}

/// The comment has no identifier, or an empty one.
pub open spec fn comment_id_missing(c: IssueComment) -> bool {
    match c.id {
        Some(id) => id@.len() == 0,
        None => true,
    }
}

/// `after` is `before` with a freshly generated identifier where `before`
/// had none, and unchanged otherwise.
pub open spec fn comment_with_id(before: IssueComment, after: IssueComment) -> bool {
    if comment_id_missing(before) {
        (after.id matches Some(id) && is_uuid_v4_text(id@)) && after == (IssueComment { id: after.id, ..before })
    } else {
        after == before
    }
}

/// The issue with its comment list replaced.
pub open spec fn with_comments(issue: IssueData, comments: Vec<IssueComment>) -> IssueData {
    IssueData { comments, ..issue }
}

/// Give every comment without an identifier a new random one; the flag
/// tells whether any comment changed.
pub fn ensure_comment_ids(issue: IssueData) -> (r: (IssueData, bool))
    ensures
        r.0 == with_comments(issue, r.0.comments),
        r.0.comments@.len() == issue.comments@.len(),
        forall|k: int| 0 <= k < issue.comments@.len() ==> comment_with_id(#[trigger] issue.comments@[k], r.0.comments@[k]),
        r.1 == exists|k: int| 0 <= k < issue.comments@.len() && comment_id_missing(#[trigger] issue.comments@[k]),
{
    let ghost old_comments = issue.comments@;
    let IssueData {
        identifier,
        title,
        description,
        issue_type,
        status,
        priority,
        assignee,
        creator,
        parent,
        labels,
        dependencies,
        comments,
        created_at,
        updated_at,
        closed_at,
        agent,
        right_now_summary,
        right_now_updated_at,
        custom,
    } = issue;
    let mut rest = comments;
    let mut done: Vec<IssueComment> = Vec::new();
    let mut changed = false;
    let n = rest.len();
    while rest.len() > 0
        invariant
            n == old_comments.len(),
            done@.len() + rest@.len() == n,
            rest@ == old_comments.subrange(done@.len() as int, n as int),
            forall|k: int| 0 <= k < done@.len() ==> comment_with_id(#[trigger] old_comments[k], done@[k]),
            changed == exists|k: int| 0 <= k < done@.len() && comment_id_missing(#[trigger] old_comments[k]),
        decreases rest@.len(),
    {
        let ghost i = done@.len() as int;
        let c = rest.remove(0);
        assert(c == old_comments[i]);
        let missing = match &c.id {
            Some(id) => id.unicode_len() == 0,
            None => true,
        };
        if missing {
            let fresh = new_uuid_text();
            let IssueComment { id: _, author, text, created_at, comment_type, data, agent } = c;
            done.push(IssueComment { id: Some(fresh), author, text, created_at, comment_type, data, agent });
            changed = true;
        } else {
            done.push(c);
        }
        assert(rest@ =~= old_comments.subrange(done@.len() as int, n as int));
        assert(comment_with_id(old_comments[i], done@[i]));
        assert(changed == exists|k: int| 0 <= k < done@.len() && comment_id_missing(#[trigger] old_comments[k])) by {
            if missing {
                assert(comment_id_missing(old_comments[i]));
            }
        }
    }
    let updated = IssueData {
        identifier,
        title,
        description,
        issue_type,
        status,
        priority,
        assignee,
        creator,
        parent,
        labels,
        dependencies,
        comments: done,
        created_at,
        updated_at,
        closed_at,
        agent,
        right_now_summary,
        right_now_updated_at,
        custom,
    };
    (updated, changed)
}

/// Ensure comment identifiers exist for a loaded issue (or pass on the error
/// that loading gave); the flag tells whether the issue must be written back.
pub fn ensure_issue_comment_ids(loaded: Result<IssueData, KanbusError>) -> (r: Result<(IssueData, bool), KanbusError>)
    ensures
        match loaded {
            Err(e) => r == Err::<(IssueData, bool), KanbusError>(e),
            Ok(issue) => r matches Ok(res) && res.0 == with_comments(issue, res.0.comments)
                && res.0.comments@.len() == issue.comments@.len()
                && (forall|k: int| 0 <= k < issue.comments@.len() ==> comment_with_id(#[trigger] issue.comments@[k], res.0.comments@[k]))
                && res.1 == exists|k: int| 0 <= k < issue.comments@.len() && comment_id_missing(#[trigger] issue.comments@[k]),
        },
{
    match loaded {
        Ok(issue) => Ok(ensure_comment_ids(issue)),
        Err(e) => Err(e),
    }
}

/// The normalized comment identifier prefix: trimmed and lowercase.
pub open spec fn normalized_prefix(prefix: Seq<char>) -> Seq<char> {
    ascii_lower(trim_ws(prefix))
}

/// Trim a comment identifier prefix and make it lowercase; a blank prefix
/// is refused.
pub fn normalize_prefix(prefix: &str) -> (r: Result<String, KanbusError>)
    ensures
        trim_ws(prefix@).len() == 0 ==> (r matches Err(e) && e is IssueOperation && e->IssueOperation_0@ == "comment id is required"@),
        trim_ws(prefix@).len() > 0 ==> (r matches Ok(s) && s@ == normalized_prefix(prefix@)),
{
    let trimmed = trim(prefix);
    if trimmed.unicode_len() == 0 {
        return Err(issue_error("comment id is required"));
    }
    Ok(to_ascii_lowercase(&trimmed))
}

/// The comment's identifier begins with the prefix, ignoring ASCII case.
pub open spec fn comment_matches_prefix(c: IssueComment, normalized: Seq<char>) -> bool {
    c.id matches Some(id) && has_prefix(ascii_lower(id@), normalized)
}

/// Positions of the comments whose identifier begins with the prefix.
pub open spec fn matching_comments(comments: Seq<IssueComment>, normalized: Seq<char>) -> Seq<int>
    decreases comments.len(),
{
    if comments.len() == 0 {
        seq![]
    } else {
        let rest = matching_comments(comments.drop_last(), normalized);
        if comment_matches_prefix(comments.last(), normalized) {
            rest.push(comments.len() - 1)
        } else {
            rest
        }
    }
}

/// The first six characters of the identifiers of the given comments,
/// joined by ", ".
pub open spec fn short_ids_text(comments: Seq<IssueComment>, idx: Seq<int>) -> Seq<char>
    decreases idx.len(),
{
    if idx.len() == 0 {
        seq![]
    } else {
        let id = comments[idx.last()].id->Some_0@;
        let short = if id.len() <= 6 {
            id
        } else {
            id.subrange(0, 6)
        };
        if idx.len() == 1 {
            short
        } else {
            short_ids_text(comments, idx.drop_last()) + ", "@ + short
        }
    }
}

proof fn lemma_matching_comments(comments: Seq<IssueComment>, normalized: Seq<char>)
    ensures
        forall|k: int|
            0 <= k < matching_comments(comments, normalized).len() ==> 0 <= #[trigger] matching_comments(comments, normalized)[k]
                < comments.len() && comment_matches_prefix(comments[matching_comments(comments, normalized)[k]], normalized),
    decreases comments.len(),
{
    if comments.len() > 0 {
        let d = comments.drop_last();
        lemma_matching_comments(d, normalized);
        let rest = matching_comments(d, normalized);
        let m = matching_comments(comments, normalized);
        assert forall|k: int| 0 <= k < m.len() implies 0 <= #[trigger] m[k] < comments.len() && comment_matches_prefix(
            comments[m[k]],
            normalized,
        ) by {
            if k < rest.len() {
                assert(m[k] == rest[k]);
                assert(d[rest[k]] == comments[rest[k]]);
            }
        }
    }
}

/// Find the one comment whose identifier begins with the prefix.
pub fn find_comment_by_prefix(issue: &IssueData, prefix: &str) -> (r: Result<usize, KanbusError>)
    ensures
        trim_ws(prefix@).len() == 0 ==> (r matches Err(e) && e is IssueOperation && e->IssueOperation_0@ == "comment id is required"@),
        r matches Ok(i) ==> i < issue.comments@.len(),
        trim_ws(prefix@).len() > 0 ==> ({
            let m = matching_comments(issue.comments@, normalized_prefix(prefix@));
            if m.len() == 0 {
                r matches Err(e) && e is IssueOperation && e->IssueOperation_0@ == "comment not found"@
            } else if m.len() == 1 {
                r matches Ok(i) && i == m[0]
            } else {
                r matches Err(e) && e is IssueOperation && e->IssueOperation_0@
                    == "comment id prefix is ambiguous; matches: "@ + short_ids_text(issue.comments@, m)
            }
        }),
{
    let normalized = match normalize_prefix(prefix) {
        Ok(n) => n,
        Err(e) => return Err(e),
    };
    let mut matches: Vec<usize> = Vec::new();
    let mut i: usize = 0;
    while i < issue.comments.len()
        invariant
            i <= issue.comments@.len(),
            matches@.map_values(|x: usize| x as int) == matching_comments(issue.comments@.subrange(0, i as int), normalized@),
            forall|k: int| 0 <= k < matches@.len() ==> #[trigger] matches@[k] < i,
        decreases issue.comments@.len() - i,
    {
        let c = &issue.comments[i];
        assert(issue.comments@.subrange(0, i + 1).drop_last() =~= issue.comments@.subrange(0, i as int));
        assert(issue.comments@.subrange(0, i + 1).last() == *c);
        let ghost before = matches@;
        let hit = match &c.id {
            Some(id) => {
                let lower = to_ascii_lowercase(id);
                starts_with(&lower, &normalized)
            },
            None => false,
        };
        if hit {
            matches.push(i);
            assert(matches@.map_values(|x: usize| x as int) =~= before.map_values(|x: usize| x as int).push(i as int));
        }
        i += 1;
    }
    assert(issue.comments@.subrange(0, issue.comments@.len() as int) =~= issue.comments@);
    let ghost m = matching_comments(issue.comments@, normalized@);
    assert(matches@.len() == m.len());
    if matches.len() == 0 {
        return Err(issue_error("comment not found"));
    }
    proof {
        lemma_matching_comments(issue.comments@, normalized@);
    }
    if matches.len() == 1 {
        assert(m[0] == matches@[0] as int);
        return Ok(matches[0]);
    }
    let mut ids = String::new();
    let mut j: usize = 0;
    while j < matches.len()
        invariant
            j <= matches@.len(),
            matches@.len() == m.len(),
            m == matches@.map_values(|x: usize| x as int),
            forall|k: int|
                0 <= k < m.len() ==> 0 <= #[trigger] m[k] < issue.comments@.len() && comment_matches_prefix(
                    issue.comments@[m[k]],
                    normalized@,
                ),
            ids@ == short_ids_text(issue.comments@, m.subrange(0, j as int)),
        decreases matches@.len() - j,
    {
        let idx = matches[j];
        assert(m[j as int] == idx as int);
        assert(idx < issue.comments@.len());
        let c = &issue.comments[idx];
        assert(comment_matches_prefix(issue.comments@[m[j as int]], normalized@));
        let id = match &c.id {
            Some(id) => id,
            None => {
                assert(false);
                return Err(issue_error("comment not found"));
            },
        };
        let k = id.unicode_len();
        let short = if k <= 6 {
            owned(id)
        } else {
            substring(id, 0, 6)
        };
        if j > 0 {
            ids.append(", ");
        }
        ids.append(&short);
        assert(m.subrange(0, j + 1).drop_last() =~= m.subrange(0, j as int));
        assert(m.subrange(0, j + 1).last() == idx as int);
        assert(ids@ =~= short_ids_text(issue.comments@, m.subrange(0, j + 1)));
        j += 1;
    }
    assert(m.subrange(0, m.len() as int) =~= m);
    let mut message = owned("comment id prefix is ambiguous; matches: ");
    message.append(&ids);
    Err(KanbusError::IssueOperation(message))
}

/// `base` is `issue` with identifiers given to the comments that lacked one.
pub open spec fn ids_ensured(issue: IssueData, base: IssueData) -> bool {
    &&& base == with_comments(issue, base.comments)
    &&& base.comments@.len() == issue.comments@.len()
    &&& forall|k: int| 0 <= k < issue.comments@.len() ==> comment_with_id(#[trigger] issue.comments@[k], base.comments@[k])
}

/// The errors of a comment lookup by prefix, if the lookup fails.
pub open spec fn comment_lookup_fails(comments: Seq<IssueComment>, prefix: Seq<char>, r: Result<IssueData, KanbusError>) -> bool {
    if trim_ws(prefix).len() == 0 {
        r matches Err(e) && e is IssueOperation && e->IssueOperation_0@ == "comment id is required"@
    } else {
        let m = matching_comments(comments, normalized_prefix(prefix));
        if m.len() == 0 {
            r matches Err(e) && e is IssueOperation && e->IssueOperation_0@ == "comment not found"@
        } else {
            r matches Err(e) && e is IssueOperation && e->IssueOperation_0@
                == "comment id prefix is ambiguous; matches: "@ + short_ids_text(comments, m)
        }
    }
}

/// The comment lookup by prefix finds exactly one comment.
pub open spec fn comment_lookup_finds(comments: Seq<IssueComment>, prefix: Seq<char>) -> bool {
    trim_ws(prefix).len() > 0 && matching_comments(comments, normalized_prefix(prefix)).len() == 1
}

/// The comment that the lookup by prefix finds.
pub open spec fn found_comment(comments: Seq<IssueComment>, prefix: Seq<char>) -> int {
    matching_comments(comments, normalized_prefix(prefix))[0]
}

/// `d` is `c` with its text replaced when a new one is given, and its agent
/// replaced when `agent_changed`.
pub open spec fn updated_comment(
    c: IssueComment,
    d: IssueComment,
    text: Option<Seq<char>>,
    agent: Option<AgentMetadata>,
    agent_changed: bool,
) -> bool {
    &&& d == (IssueComment { text: d.text, agent: d.agent, ..c })
    &&& match text {
        Some(t) => d.text matches Some(s) && s@ == t,
        None => d.text == c.text,
    }
    &&& if agent_changed {
        d.agent == agent
    } else {
        d.agent == c.agent
    }
}

/// What updating a comment of `base` gives.
pub open spec fn comment_update_outcome(
    base: IssueData,
    prefix: Seq<char>,
    text: Option<Seq<char>>,
    agent: Option<AgentMetadata>,
    r: Result<IssueData, KanbusError>,
) -> bool {
    if !comment_lookup_finds(base.comments@, prefix) {
        comment_lookup_fails(base.comments@, prefix, r)
    } else {
        let i = found_comment(base.comments@, prefix);
        let c = base.comments@[i];
        if agent is Some && provenance_complete(c.agent) {
            r matches Err(e) && e is IssueOperation && e->IssueOperation_0@ == "agent metadata is already set"@
        } else {
            let agent_changed = agent is Some && !opt_agent_eq(agent, c.agent);
            if text is None && !agent_changed {
                r matches Err(e) && e is IssueOperation && e->IssueOperation_0@ == "no comment updates requested"@
            } else {
                r matches Ok(u) && u == with_comments(base, u.comments) && u.comments@.len() == base.comments@.len()
                    && (forall|j: int| 0 <= j < base.comments@.len() && j != i ==> #[trigger] u.comments@[j] == base.comments@[j])
                    && updated_comment(c, u.comments@[i], text, agent, agent_changed)
            }
        }
    }
}

fn lookup_error(e: KanbusError) -> (r: Result<IssueData, KanbusError>)
    ensures
        r == Err::<IssueData, KanbusError>(e),
{
    Err(e)
}

/// Update the text or the agent of the comment that the prefix names, in an
/// issue whose comments all have identifiers.
pub fn apply_comment_update(
    issue: IssueData,
    comment_id_prefix: &str,
    text: Option<&str>,
    agent: Option<AgentMetadata>,
) -> (r: Result<IssueData, KanbusError>)
    ensures
        comment_update_outcome(issue, comment_id_prefix@, crate::agent_metadata::opt_str_view(text), agent, r),
{
    let index = match find_comment_by_prefix(&issue, comment_id_prefix) {
        Ok(i) => i,
        Err(e) => return lookup_error(e),
    };
    let ghost c0 = issue.comments@[index as int];
    let mut issue = issue;
    let ghost base = issue;
    let mut comment = issue.comments.remove(index);
    assert(comment == c0);
    let mut agent_changed = false;
    if let Some(incoming) = agent {
        if agent_provenance_is_complete(comment.agent.as_ref()) {
            return Err(issue_error("agent metadata is already set"));
        }
        let wanted = Some(incoming);
        if !opt_agents_equal(&wanted, &comment.agent) {
            comment.agent = wanted;
            agent_changed = true;
        }
    }
    let text_given = text.is_some();
    if let Some(new_text) = text {
        comment.text = Some(owned(new_text));
    }
    if !text_given && !agent_changed {
        return Err(issue_error("no comment updates requested"));
    }
    issue.comments.insert(index, comment);
    assert(issue.comments@ =~= base.comments@.update(index as int, comment));
    Ok(issue)
}

/// Update an existing comment by identifier prefix. The loaded issue (or the
/// error that loading gave) first has identifiers given to comments that
/// lacked one; the result is the issue to persist.
pub fn update_comment(
    loaded: Result<IssueData, KanbusError>,
    comment_id_prefix: &str,
    text: Option<&str>,
    agent: Option<AgentMetadata>,
) -> (r: Result<IssueData, KanbusError>)
    ensures
        match loaded {
            Err(e) => r == Err::<IssueData, KanbusError>(e),
            Ok(issue) => exists|base: IssueData|
                ids_ensured(issue, base) && #[trigger] comment_update_outcome(
                    base,
                    comment_id_prefix@,
                    crate::agent_metadata::opt_str_view(text),
                    agent,
                    r,
                ),
        },
{
    let issue = match loaded {
        Ok(issue) => issue,
        Err(e) => return Err(e),
    };
    let (base, _) = ensure_comment_ids(issue);
    let r = apply_comment_update(base, comment_id_prefix, text, agent);
    assert(ids_ensured(issue, base));
    r
}

/// What deleting a comment of `base` gives: the issue without it, and the
/// removed comment.
pub open spec fn comment_delete_outcome(
    base: IssueData,
    prefix: Seq<char>,
    r: Result<(IssueData, IssueComment), KanbusError>,
) -> bool {
    if !comment_lookup_finds(base.comments@, prefix) {
        comment_lookup_fails(
            base.comments@,
            prefix,
            match r {
                Err(e) => Err::<IssueData, KanbusError>(e),
                Ok(res) => Ok::<IssueData, KanbusError>(res.0),
            },
        )
    } else {
        let i = found_comment(base.comments@, prefix);
        r matches Ok(res) && res.1 == base.comments@[i] && res.0 == with_comments(base, res.0.comments)
            && res.0.comments@ == base.comments@.remove(i)
    }
}

/// Remove the comment that the prefix names from an issue whose comments
/// all have identifiers.
pub fn apply_comment_delete(issue: IssueData, comment_id_prefix: &str) -> (r: Result<(IssueData, IssueComment), KanbusError>)
    ensures
        comment_delete_outcome(issue, comment_id_prefix@, r),
{
    let index = match find_comment_by_prefix(&issue, comment_id_prefix) {
        Ok(i) => i,
        Err(e) => return Err(e),
    };
    let mut updated = issue;
    let removed = updated.comments.remove(index);
    Ok((updated, removed))
}

/// Delete an existing comment by identifier prefix. The loaded issue (or the
/// error that loading gave) first has identifiers given to comments that
/// lacked one; the result is the issue to persist and the removed comment.
pub fn delete_comment(
    loaded: Result<IssueData, KanbusError>,
    comment_id_prefix: &str,
) -> (r: Result<(IssueData, IssueComment), KanbusError>)
    ensures
        match loaded {
            Err(e) => r == Err::<(IssueData, IssueComment), KanbusError>(e),
            Ok(issue) => exists|base: IssueData|
                ids_ensured(issue, base) && #[trigger] comment_delete_outcome(base, comment_id_prefix@, r),
        },
{
    let issue = match loaded {
        Ok(issue) => issue,
        Err(e) => return Err(e),
    };
    let (base, _) = ensure_comment_ids(issue);
    assert(ids_ensured(issue, base));
    apply_comment_delete(base, comment_id_prefix)
}

/// Whether `c` is the new plain comment: a fresh random identifier, the
/// given author, text, time and agent, and no data.
pub open spec fn is_new_comment(
    c: IssueComment,
    author: Seq<char>,
    text: Seq<char>,
    created_at: i64,
    agent: Option<AgentMetadata>,
) -> bool {
    &&& c.id matches Some(id) && is_uuid_v4_text(id@)
    &&& c.author@ == author
    &&& c.text matches Some(t) && t@ == text
    &&& c.created_at == created_at
    &&& c.comment_type@ == "default"@
    &&& c.data@.len() == 0
    &&& c.agent == agent
}

/// Add a comment to an issue. The loaded issue (or the error that loading
/// gave) first has identifiers given to comments that lacked one; the new
/// comment, written at `created_at`, goes last. The result is the issue to
/// persist, whose last comment is the new one.
pub fn add_comment(
    loaded: Result<IssueData, KanbusError>,
    author: &str,
    text: &str,
    agent: Option<AgentMetadata>,
    created_at: i64,
) -> (r: Result<IssueData, KanbusError>)
    ensures
        match loaded {
            Err(e) => r == Err::<IssueData, KanbusError>(e),
            Ok(issue) => r matches Ok(updated) && exists|base: IssueData, c: IssueComment|
                ids_ensured(issue, base) && with_comments(base, updated.comments) == updated
                    && updated.comments@ == #[trigger] base.comments@.push(c) && is_new_comment(c, author@, text@, created_at, agent),
        },
{
    let issue = match loaded {
        Ok(issue) => issue,
        Err(e) => return Err(e),
    };
    let (base, _) = ensure_comment_ids(issue);
    assert(ids_ensured(issue, base));
    let comment = IssueComment {
        id: Some(new_uuid_text()),
        author: owned(author),
        text: Some(owned(text)),
        created_at,
        comment_type: owned("default"),
        data: Vec::new(),
        agent,
    };
    let ghost c = comment;
    let ghost before = base;
    let mut updated = base;
    updated.comments.push(comment);
    assert(with_comments(before, updated.comments) == updated);
    assert(updated.comments@ == before.comments@.push(c));
    Ok(updated)
}

} // verus!
