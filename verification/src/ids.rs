//! Issue identifiers: display keys and generation.

use vstd::prelude::*;
use vstd::string::*;

use crate::error::KanbusError;
use crate::text::{contains_str, find_char, first_pos, lemma_first_pos, owned, substring};

verus! {

/// Every character is an ASCII digit.
pub open spec fn all_ascii_digits(s: Seq<char>) -> bool {
    forall|i: int| 0 <= i < s.len() ==> '0' <= #[trigger] s[i] <= '9'
}

/// `s` with every '-' removed.
pub open spec fn without_dashes(s: Seq<char>) -> Seq<char>
    decreases s.len(),
{
    if s.len() == 0 {
        seq![]
    } else if s.last() == '-' {
        without_dashes(s.drop_last())
    } else {
        without_dashes(s.drop_last()).push(s.last())
    }
}

/// The first `n` characters of `s` (all of them when it is shorter).
pub open spec fn take_chars(s: Seq<char>, n: nat) -> Seq<char> {
    if s.len() <= n {
        s
    } else {
        s.subrange(0, n as int)
    }
}

/// The project key of an identifier and the part after it: the key is what
/// precedes the first '-', when both it and what follows are non-empty.
pub open spec fn key_split(id: Seq<char>) -> (Option<Seq<char>>, Seq<char>) {
    let p = first_pos(id, '-');
    if p > 0 && p < id.len() - 1 {
        (Some(id.subrange(0, p)), id.subrange(p + 1, id.len() as int))
    } else {
        (None, id)
    }
}

/// The display key of an identifier: all-digit identifiers are shown as they
/// are; otherwise the part before the first '.' loses its dashes and is cut
/// to six characters, the suffix after the '.' is kept, and the project key
/// is kept unless the key is shown within its project.
pub open spec fn issue_key_text(id: Seq<char>, project_context: bool) -> Seq<char> {
    if all_ascii_digits(id) {
        id
    } else {
        let key = key_split(id).0;
        let rem = key_split(id).1;
        let d = first_pos(rem, '.');
        let base = if d >= 0 {
            rem.subrange(0, d)
        } else {
            rem
        };
        let short = take_chars(without_dashes(base), 6);
        let body = if d >= 0 {
            short + seq!['.'] + rem.subrange(d + 1, rem.len() as int)
        } else {
            short
        };
        if project_context {
            body
        } else {
            match key {
                Some(k) => k + seq!['-'] + body,
                None => body,
            }
        }
    }
}

fn is_all_digits(s: &str) -> (r: bool)
    ensures
        r == all_ascii_digits(s@),
{
    let n = s.unicode_len();
    let mut i: usize = 0;
    while i < n
        invariant
            n == s@.len(),
            i <= n,
            forall|j: int| 0 <= j < i ==> '0' <= #[trigger] s@[j] <= '9',
        decreases n - i,
    {
        let c = s.get_char(i);
        if !('0' <= c && c <= '9') {
            return false;
        }
        i += 1;
    }
    true
}

fn strip_dashes(s: &str) -> (r: String)
    ensures
        r@ == without_dashes(s@),
{
    let n = s.unicode_len();
    let mut out = String::new();
    let mut i: usize = 0;
    while i < n
        invariant
            n == s@.len(),
            i <= n,
            out@ == without_dashes(s@.subrange(0, i as int)),
        decreases n - i,
    {
        let c = s.get_char(i);
        assert(s@.subrange(0, i + 1).drop_last() =~= s@.subrange(0, i as int));
        if c != '-' {
            crate::text::push_char(&mut out, c);
        }
        i += 1;
    }
    assert(s@.subrange(0, n as int) =~= s@);
    out
}

/// Produce a display-friendly issue key.
pub fn format_issue_key(identifier: &str, project_context: bool) -> (r: String)
    ensures
        r@ == issue_key_text(identifier@, project_context),
{
    if is_all_digits(identifier) {
        return owned(identifier);
    }
    let n = identifier.unicode_len();
    proof {
        lemma_first_pos(identifier@, '-');
    }
    let mut key: Option<String> = None;
    let mut rem = owned(identifier);
    match find_char(identifier, '-') {
        Some(p) => {
            if p > 0 && p + 1 < n {
                key = Some(substring(identifier, 0, p));
                rem = substring(identifier, p + 1, n);
            }
        },
        None => {},
    }
    assert(rem@ == key_split(identifier@).1);
    assert(match key {
        Some(k) => key_split(identifier@).0 == Some(k@),
        None => key_split(identifier@).0 is None,
    });
    let m = rem.unicode_len();
    proof {
        lemma_first_pos(rem@, '.');
    }
    let (base, suffix) = match find_char(&rem, '.') {
        Some(d) => (substring(&rem, 0, d), Some(substring(&rem, d + 1, m))),
        None => (owned(&rem), None),
    };
    let normalized = strip_dashes(&base);
    let k = normalized.unicode_len();
    let truncated = if k <= 6 {
        normalized
    } else {
        substring(&normalized, 0, 6)
    };
    let mut body = truncated;
    match &suffix {
        Some(tail) => {
            body.append(".");
            body.append(tail);
            proof {
                reveal_strlit(".");
            }
        },
        None => {},
    }
    if project_context {
        return body;
    }
    match key {
        Some(k) => {
            let mut out = k;
            out.append("-");
            out.append(&body);
            proof {
                reveal_strlit("-");
            }
            out
        },
        None => body,
    }
}

/// A lowercase hexadecimal digit.
pub open spec fn is_lower_hex(c: char) -> bool {
    ('0' <= c <= '9') || ('a' <= c <= 'f')
}

/// Text of a random (version 4) UUID in its hyphenated lowercase form,
/// such as `67e55044-10b1-426f-9247-bb680e5fe0c8`.
pub open spec fn is_uuid_v4_text(s: Seq<char>) -> bool {
    &&& s.len() == 36
    &&& forall|i: int|
        0 <= i < 36 ==> (if i == 8 || i == 13 || i == 18 || i == 23 {
            s[i] == '-'
        } else {
            is_lower_hex(#[trigger] s[i])
        })
    &&& s[14] == '4'
}

/// A fresh random UUID as text: `uuid::Uuid::new_v4`, shown through its
/// `Display`, which the crate writes in the hyphenated lowercase form; the
/// version digit of a random UUID is 4. Which UUID comes out is chance; the
/// call panics only if the operating system's random source fails.
#[verifier::external_body]
pub(crate) fn new_uuid_text() -> (r: String)
    ensures
        is_uuid_v4_text(r@),
{
    uuid::Uuid::new_v4().to_string()
}

/// Request to generate a unique issue identifier.
pub struct IssueIdentifierRequest {
    /// Issue title.
    pub title: String,
    /// Existing identifiers to avoid collisions.
    pub existing_ids: Vec<String>,
    /// ID project key (prefix).
    pub prefix: String,
}

/// Generated issue identifier.
pub struct IssueIdentifierResult {
    /// Unique issue identifier.
    pub identifier: String,
}

/// An identifier made of the project key, a '-', and a random UUID.
pub open spec fn is_generated_identifier(id: Seq<char>, prefix: Seq<char>) -> bool {
    exists|u: Seq<char>| #[trigger] is_uuid_v4_text(u) && id == prefix + seq!['-'] + u
}

/// Number of attempts before identifier generation gives up.
pub const MAX_ID_ATTEMPTS: usize = 10;

/// The identifier `{prefix}-{uuid}`.
pub open spec fn candidate_identifier(prefix: Seq<char>, uuid: Seq<char>) -> Seq<char> {
    prefix + seq!['-'] + uuid
}

/// The first of the drawn UUIDs whose identifier is not in use, as that
/// identifier.
pub open spec fn first_free_identifier(prefix: Seq<char>, drawn: Seq<Seq<char>>, existing: Seq<Seq<char>>) -> Option<Seq<char>>
    decreases drawn.len(),
{
    if drawn.len() == 0 {
        None
    } else {
        match first_free_identifier(prefix, drawn.drop_last(), existing) {
            Some(id) => Some(id),
            None => if !existing.contains(candidate_identifier(prefix, drawn.last())) {
                Some(candidate_identifier(prefix, drawn.last()))
            } else {
                None
            },
        }
    }
}

/// Drawing `drawn`, in order, gave the identifier `id`: every draw is a
/// random UUID, there were at most ten, and the last one drawn is the first
/// whose identifier is free.
pub open spec fn draws_give(prefix: Seq<char>, existing: Seq<Seq<char>>, drawn: Seq<Seq<char>>, id: Seq<char>) -> bool {
    &&& 1 <= drawn.len() <= MAX_ID_ATTEMPTS
    &&& forall|i: int| 0 <= i < drawn.len() ==> is_uuid_v4_text(#[trigger] drawn[i])
    &&& first_free_identifier(prefix, drawn.drop_last(), existing) is None
    &&& first_free_identifier(prefix, drawn, existing) == Some(id)
}

/// Ten random UUIDs were drawn and every identifier they give is in use.
pub open spec fn draws_fail(prefix: Seq<char>, existing: Seq<Seq<char>>, drawn: Seq<Seq<char>>) -> bool {
    &&& drawn.len() == MAX_ID_ATTEMPTS
    &&& forall|i: int| 0 <= i < drawn.len() ==> is_uuid_v4_text(#[trigger] drawn[i])
    &&& first_free_identifier(prefix, drawn, existing) is None
}

/// A free identifier is one of the drawn UUIDs under the prefix, and not in
/// use.
pub proof fn lemma_first_free_identifier(prefix: Seq<char>, drawn: Seq<Seq<char>>, existing: Seq<Seq<char>>)
    ensures
        first_free_identifier(prefix, drawn, existing) matches Some(id) ==> !existing.contains(id) && exists|i: int|
            0 <= i < drawn.len() && id == candidate_identifier(prefix, #[trigger] drawn[i]),
    decreases drawn.len(),
{
    if drawn.len() > 0 {
        lemma_first_free_identifier(prefix, drawn.drop_last(), existing);
        if let Some(id) = first_free_identifier(prefix, drawn.drop_last(), existing) {
            let i = choose|i: int| 0 <= i < drawn.drop_last().len() && id == candidate_identifier(prefix, #[trigger] drawn.drop_last()[i]);
            assert(drawn[i] == drawn.drop_last()[i]);
        } else {
            assert(drawn[drawn.len() - 1] == drawn.last());
        }
    }
}

/// The identifier that drawn UUIDs give: the first drawn one under the
/// prefix that is not in use, or, when all are taken, the error that
/// identifier generation gives up with.
pub fn pick_identifier(prefix: &str, drawn: &Vec<String>, existing: &Vec<String>) -> (r: Result<String, KanbusError>)
    ensures
        match first_free_identifier(prefix@, drawn.deep_view(), existing.deep_view()) {
            Some(id) => r matches Ok(s) && s@ == id,
            None => r matches Err(e) && e == KanbusError::IdGenerationFailed(e->IdGenerationFailed_0)
                && e->IdGenerationFailed_0@ == "unable to generate unique id after 10 attempts"@,
        },
{
    let ghost d = drawn.deep_view();
    let mut i: usize = 0;
    while i < drawn.len()
        invariant
            i <= drawn@.len(),
            d == drawn.deep_view(),
            first_free_identifier(prefix@, d.take(i as int), existing.deep_view()) is None,
        decreases drawn@.len() - i,
    {
        let mut identifier = owned(prefix);
        identifier.append("-");
        identifier.append(drawn[i].as_str());
        proof {
            reveal_strlit("-");
            assert(identifier@ =~= candidate_identifier(prefix@, d[i as int]));
            assert(d.take(i + 1).drop_last() =~= d.take(i as int));
            assert(d.take(i + 1).last() == d[i as int]);
        }
        if !contains_str(existing, identifier.as_str()) {
            proof {
                lemma_first_free_prefix(prefix@, d, existing.deep_view(), i + 1);
            }
            return Ok(identifier);
        }
        i += 1;
    }
    assert(d.take(i as int) =~= d);
    let message = owned("unable to generate unique id after 10 attempts");
    Err(KanbusError::IdGenerationFailed(message))
}

/// Once a prefix of the draws gives a free identifier, all the draws give
/// the same one.
proof fn lemma_first_free_prefix(prefix: Seq<char>, d: Seq<Seq<char>>, existing: Seq<Seq<char>>, k: int)
    requires
        0 <= k <= d.len(),
        first_free_identifier(prefix, d.take(k), existing) is Some,
    ensures
        first_free_identifier(prefix, d, existing) == first_free_identifier(prefix, d.take(k), existing),
    decreases d.len() - k,
{
    if k < d.len() {
        assert(d.take(k + 1).drop_last() =~= d.take(k));
        lemma_first_free_prefix(prefix, d, existing, k + 1);
    } else {
        assert(d.take(k) =~= d);
    }
}

/// Generate a unique issue identifier `{prefix}-{uuid}`, drawing new random
/// UUIDs while the candidate is already taken, up to ten times. The result
/// is what `pick_identifier` gives for the UUIDs drawn.
pub fn generate_issue_identifier(request: &IssueIdentifierRequest) -> (r: Result<IssueIdentifierResult, KanbusError>)
    ensures
        r matches Ok(res) ==> is_generated_identifier(res.identifier@, request.prefix@)
            && !request.existing_ids.deep_view().contains(res.identifier@) && exists|drawn: Seq<Seq<char>>|
            #[trigger] draws_give(request.prefix@, request.existing_ids.deep_view(), drawn, res.identifier@),
        r matches Err(e) ==> e == KanbusError::IdGenerationFailed(e->IdGenerationFailed_0)
            && e->IdGenerationFailed_0@ == "unable to generate unique id after 10 attempts"@ && exists|
            drawn: Seq<Seq<char>>,
        | #[trigger] draws_fail(request.prefix@, request.existing_ids.deep_view(), drawn),
{
    let ghost existing = request.existing_ids.deep_view();
    let ghost prefix = request.prefix@;
    let mut drawn: Vec<String> = Vec::new();
    let mut attempt: usize = 0;
    let mut found = false;
    while attempt < MAX_ID_ATTEMPTS
        invariant_except_break
            !found,
            attempt <= MAX_ID_ATTEMPTS,
            drawn@.len() == attempt,
            forall|i: int| 0 <= i < drawn@.len() ==> is_uuid_v4_text(#[trigger] drawn.deep_view()[i]),
            first_free_identifier(prefix, drawn.deep_view(), existing) is None,
            existing == request.existing_ids.deep_view(),
            prefix == request.prefix@,
        ensures
            existing == request.existing_ids.deep_view(),
            prefix == request.prefix@,
            forall|i: int| 0 <= i < drawn@.len() ==> is_uuid_v4_text(#[trigger] drawn.deep_view()[i]),
            found ==> 1 <= drawn@.len() <= MAX_ID_ATTEMPTS && first_free_identifier(prefix, drawn.deep_view().drop_last(), existing) is None
                && first_free_identifier(prefix, drawn.deep_view(), existing) is Some,
            !found ==> drawn@.len() == MAX_ID_ATTEMPTS && first_free_identifier(prefix, drawn.deep_view(), existing) is None,
        decreases MAX_ID_ATTEMPTS - attempt,
    {
        let u = new_uuid_text();
        let mut identifier = request.prefix.clone();
        identifier.append("-");
        identifier.append(&u);
        let ghost before = drawn.deep_view();
        proof {
            reveal_strlit("-");
            assert(identifier@ =~= candidate_identifier(prefix, u@));
        }
        let free = !contains_str(&request.existing_ids, &identifier);
        drawn.push(u);
        proof {
            assert(drawn.deep_view() =~= before.push(drawn.deep_view().last()));
            assert(drawn.deep_view().drop_last() =~= before);
        }
        if free {
            found = true;
            break;
        }
        attempt += 1;
    }
    let picked = pick_identifier(&request.prefix, &drawn, &request.existing_ids);
    proof {
        lemma_first_free_identifier(prefix, drawn.deep_view(), existing);
    }
    match picked {
        Ok(identifier) => {
            proof {
                let id = identifier@;
                let i = choose|i: int| 0 <= i < drawn.deep_view().len() && id == candidate_identifier(prefix, #[trigger] drawn.deep_view()[i]);
                assert(is_uuid_v4_text(drawn.deep_view()[i]));
                assert(id == prefix + seq!['-'] + drawn.deep_view()[i]);
                assert(draws_give(prefix, existing, drawn.deep_view(), id));
            }
            Ok(IssueIdentifierResult { identifier })
        },
        Err(e) => {
            proof {
                assert(draws_fail(prefix, existing, drawn.deep_view()));
            }
            Err(e)
        },
    }
}

/// Generate `count` distinct identifiers, each new one avoiding those made
/// before it.
pub fn generate_many_identifiers(title: &str, prefix: &str, count: usize) -> (r: Result<Vec<String>, KanbusError>)
    ensures
        r matches Ok(ids) ==> ids@.len() == count && ids.deep_view().no_duplicates()
            && forall|i: int| 0 <= i < ids@.len() ==> is_generated_identifier(#[trigger] ids.deep_view()[i], prefix@),
        r matches Err(e) ==> e is IdGenerationFailed,
{
    let mut existing: Vec<String> = Vec::new();
    let mut i: usize = 0;
    while i < count
        invariant
            i <= count,
            existing@.len() == i,
            existing.deep_view().no_duplicates(),
            forall|k: int| 0 <= k < existing@.len() ==> is_generated_identifier(#[trigger] existing.deep_view()[k], prefix@),
        decreases count - i,
    {
        let mut copy: Vec<String> = Vec::new();
        let mut j: usize = 0;
        while j < existing.len()
            invariant
                j <= existing@.len(),
                copy@ == existing@.subrange(0, j as int),
            decreases existing@.len() - j,
        {
            copy.push(existing[j].clone());
            j += 1;
        }
        assert(copy@ =~= existing@);
        assert(copy.deep_view() =~= existing.deep_view());
        let request = IssueIdentifierRequest { title: owned(title), existing_ids: copy, prefix: owned(prefix) };
        let result = generate_issue_identifier(&request);
        match result {
            Ok(res) => {
                let ghost before = existing.deep_view();
                existing.push(res.identifier);
                assert(existing.deep_view() =~= before.push(res.identifier@));
            },
            Err(e) => {
                return Err(e);
            },
        }
        i += 1;
    }
    Ok(existing)
}

} // verus!
