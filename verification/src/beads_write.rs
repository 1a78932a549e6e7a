//! Beads compatibility: identifiers of Beads records and new Beads issues.

use vstd::prelude::*;
use vstd::string::*;

use crate::daemon_protocol::{all_digits, decimal_value, parse_u32};
use crate::error::KanbusError;
use crate::json_value::{json_text_value, json_text_value_of, array_field, field_of, get_field, put_field, remove_field, same_fields_except, text_field, text_of, JsonValue};
use crate::ids::{
    candidate_identifier, first_free_identifier, format_issue_key, issue_key_text, lemma_first_free_identifier,
    pick_identifier, take_chars,
};
use crate::agent_metadata::opt_str_view;
use crate::issue_update::{edit_labels, edited_labels};
use crate::models::{opt_text_view, DependencyLink, IssueData};
use crate::text::{ascii_lower, contains_str, decimal, decimal_text, digit_char, equals, join3, to_ascii_lowercase, trim, trim_ws, find_char, first_pos, has_prefix, lemma_first_pos, owned, push_char, starts_with, substring};

verus! {

fn issue_error(message: &str) -> (e: KanbusError)
    ensures
        e == KanbusError::IssueOperation(e->IssueOperation_0),
        e->IssueOperation_0@ == message@,
{
    KanbusError::IssueOperation(owned(message))
}

/// An abbreviated identifier names a full Beads identifier when it is the
/// full identifier's display key, or a proper prefix of it.
pub open spec fn beads_id_match(abbreviated: Seq<char>, full_id: Seq<char>) -> bool {
    abbreviated == issue_key_text(full_id, false) || (crate::issue_line::byte_width(abbreviated)
        < crate::issue_line::byte_width(full_id) && has_prefix(full_id, abbreviated))
}

/// An abbreviation strictly shorter (in bytes) than a full identifier that
/// the full identifier begins with names it, whatever its display key; and
/// anything else that names it is its display key.
pub proof fn lemma_prefix_names_identifier(abbreviated: Seq<char>, full_id: Seq<char>)
    ensures
        crate::issue_line::byte_width(abbreviated) < crate::issue_line::byte_width(full_id) && abbreviated.len()
            <= full_id.len() && (forall|i: int| 0 <= i < abbreviated.len() ==> #[trigger] full_id[i] == abbreviated[i])
            ==> beads_id_match(abbreviated, full_id),
        beads_id_match(abbreviated, full_id) ==> abbreviated == issue_key_text(full_id, false) || (
        crate::issue_line::byte_width(abbreviated) < crate::issue_line::byte_width(full_id) && abbreviated.len()
            <= full_id.len() && forall|i: int| 0 <= i < abbreviated.len() ==> #[trigger] full_id[i] == abbreviated[i]),
{
    if abbreviated.len() <= full_id.len() && (forall|i: int| 0 <= i < abbreviated.len() ==> #[trigger] full_id[i]
        == abbreviated[i]) {
        assert(full_id.subrange(0, abbreviated.len() as int) =~= abbreviated);
    }
    if has_prefix(full_id, abbreviated) {
        assert forall|i: int| 0 <= i < abbreviated.len() implies #[trigger] full_id[i] == abbreviated[i] by {
            assert(full_id.subrange(0, abbreviated.len() as int)[i] == full_id[i]);
        }
    }
}

/// Whether an abbreviated identifier names a full Beads identifier.
pub fn issue_id_matches_beads(abbreviated: &str, full_id: &str) -> (r: bool)
    ensures
        r == beads_id_match(abbreviated@, full_id@),
        crate::issue_line::byte_width(abbreviated@) < crate::issue_line::byte_width(full_id@) && abbreviated@.len()
            <= full_id@.len() && (forall|i: int| 0 <= i < abbreviated@.len() ==> #[trigger] full_id@[i] == abbreviated@[i])
            ==> r,
{
    proof {
        lemma_prefix_names_identifier(abbreviated@, full_id@);
    }
    let formatted = format_issue_key(full_id, false);
    if equals(abbreviated, &formatted) {
        return true;
    }
    if crate::issue_line::byte_len(abbreviated) >= crate::issue_line::byte_len(full_id) {
        return false;
    }
    starts_with(full_id, abbreviated)
}

/// What a resolution of an identifier among record identifiers gives: the
/// first record whose identifier is exactly it; else the one record it
/// abbreviates; else an error.
pub open spec fn exact_index(ids: Seq<Option<Seq<char>>>, identifier: Seq<char>) -> int
    decreases ids.len(),
{
    if ids.len() == 0 {
        -1
    } else if ids[0] == Some(identifier) {
        0
    } else {
        let r = exact_index(ids.drop_first(), identifier);
        if r < 0 {
            -1
        } else {
            r + 1
        }
    }
}

/// Positions of the records whose identifier the text abbreviates, among
/// the first `n` records.
pub open spec fn partial_matches(ids: Seq<Option<Seq<char>>>, identifier: Seq<char>, n: int) -> Seq<int>
    decreases n,
{
    if n <= 0 {
        seq![]
    } else {
        let r = partial_matches(ids, identifier, n - 1);
        match ids[n - 1] {
            Some(id) => if beads_id_match(identifier, id) {
                r.push(n - 1)
            } else {
                r
            },
            None => r,
        }
    }
}

/// The identifiers at the given positions, joined by ", ".
pub open spec fn ids_at(ids: Seq<Option<Seq<char>>>, idx: Seq<int>) -> Seq<char>
    decreases idx.len(),
{
    if idx.len() == 0 {
        seq![]
    } else if idx.len() == 1 {
        ids[idx[0]]->Some_0
    } else {
        ids_at(ids, idx.drop_last()) + ", "@ + ids[idx.last()]->Some_0
    }
}

/// Record identifiers as values.
pub open spec fn record_ids_view(ids: Seq<Option<String>>) -> Seq<Option<Seq<char>>> {
    ids.map_values(|o: Option<String>| match o {
        Some(s) => Some(s@),
        None => None,
    })
}

proof fn lemma_exact_index(ids: Seq<Option<Seq<char>>>, identifier: Seq<char>, i: int)
    requires
        0 <= i <= ids.len(),
        forall|j: int| 0 <= j < i ==> ids[j] != Some(identifier),
        i < ids.len() ==> ids[i] == Some(identifier),
    ensures
        exact_index(ids, identifier) == (if i < ids.len() { i } else { -1 }),
    decreases i,
{
    if i > 0 {
        assert forall|j: int| 0 <= j < i - 1 implies ids.drop_first()[j] != Some(identifier) by {
            assert(ids.drop_first()[j] == ids[j + 1]);
        }
        lemma_exact_index(ids.drop_first(), identifier, i - 1);
    }
}

proof fn lemma_partial_matches(ids: Seq<Option<Seq<char>>>, identifier: Seq<char>, n: int)
    requires
        0 <= n <= ids.len(),
    ensures
        forall|k: int|
            0 <= k < partial_matches(ids, identifier, n).len() ==> 0 <= #[trigger] partial_matches(ids, identifier, n)[k] < n
                && ids[partial_matches(ids, identifier, n)[k]] is Some,
    decreases n,
{
    if n > 0 {
        lemma_partial_matches(ids, identifier, n - 1);
    }
}

/// What resolving an identifier among record identifiers gives: the first
/// record whose identifier is exactly it; else the one record it
/// abbreviates; else the error message.
pub open spec fn beads_resolution(ids: Seq<Option<Seq<char>>>, identifier: Seq<char>) -> Result<int, Seq<char>> {
    let e = exact_index(ids, identifier);
    let m = partial_matches(ids, identifier, if e >= 0 { e } else { ids.len() as int });
    if e >= 0 {
        Ok(e)
    } else if m.len() == 1 {
        Ok(m[0])
    } else if m.len() == 0 {
        Err("not found"@)
    } else {
        Err("ambiguous identifier, matches: "@ + ids_at(ids, m))
    }
}

proof fn lemma_exact_index_bounds(ids: Seq<Option<Seq<char>>>, identifier: Seq<char>)
    ensures
        -1 <= exact_index(ids, identifier) < ids.len(),
        exact_index(ids, identifier) >= 0 ==> ids[exact_index(ids, identifier)] == Some(identifier),
        exact_index(ids, identifier) == -1 ==> forall|j: int| 0 <= j < ids.len() ==> ids[j] != Some(identifier),
    decreases ids.len(),
{
    if ids.len() > 0 && ids[0] != Some(identifier) {
        lemma_exact_index_bounds(ids.drop_first(), identifier);
        assert forall|j: int| 0 < j < ids.len() implies ids[j] == ids.drop_first()[j - 1] by {}
    }
}

/// A resolved position names a record that has an identifier.
pub proof fn lemma_beads_resolution(ids: Seq<Option<Seq<char>>>, identifier: Seq<char>)
    ensures
        beads_resolution(ids, identifier) matches Ok(i) ==> 0 <= i < ids.len() && ids[i] is Some,
        exact_index(ids, identifier) >= 0 ==> beads_resolution(ids, identifier) == Ok::<int, Seq<char>>(
            exact_index(ids, identifier),
        ) && ids[exact_index(ids, identifier)] == Some(identifier),
{
    lemma_exact_index_bounds(ids, identifier);
    lemma_partial_matches(ids, identifier, ids.len() as int);
}

/// Resolve an identifier among Beads records (given by their identifiers,
/// when they have one) to a record position.
pub fn resolve_beads_index(record_ids: &Vec<Option<String>>, identifier: &str) -> (r: Result<usize, KanbusError>)
    ensures
        match beads_resolution(record_ids_view(record_ids@), identifier@) {
            Ok(i) => r matches Ok(k) && k as int == i,
            Err(m) => r matches Err(err) && err is IssueOperation && err->IssueOperation_0@ == m,
        },
{
    let ghost ids = record_ids_view(record_ids@);
    let mut partial: Vec<usize> = Vec::new();
    let mut i: usize = 0;
    while i < record_ids.len()
        invariant
            i <= record_ids@.len(),
            ids == record_ids_view(record_ids@),
            forall|j: int| 0 <= j < i ==> ids[j] != Some(identifier@),
            partial@.map_values(|x: usize| x as int) == partial_matches(ids, identifier@, i as int),
        decreases record_ids@.len() - i,
    {
        if let Some(record_id) = &record_ids[i] {
            if equals(record_id, identifier) {
                proof {
                    lemma_exact_index(ids, identifier@, i as int);
                }
                return Ok(i);
            }
            let ghost before = partial@;
            if issue_id_matches_beads(identifier, record_id) {
                partial.push(i);
                assert(partial@.map_values(|x: usize| x as int) =~= before.map_values(|x: usize| x as int).push(i as int));
            }
        }
        i += 1;
    }
    proof {
        lemma_exact_index(ids, identifier@, ids.len() as int);
        lemma_partial_matches(ids, identifier@, ids.len() as int);
    }
    let ghost m = partial_matches(ids, identifier@, ids.len() as int);
    if partial.len() == 1 {
        assert(m[0] == partial@[0] as int);
        return Ok(partial[0]);
    }
    if partial.len() == 0 {
        return Err(issue_error("not found"));
    }
    let mut joined = String::new();
    let mut k: usize = 0;
    while k < partial.len()
        invariant
            k <= partial@.len(),
            ids == record_ids_view(record_ids@),
            m == partial@.map_values(|x: usize| x as int),
            forall|q: int| 0 <= q < m.len() ==> 0 <= #[trigger] m[q] < ids.len() && ids[m[q]] is Some,
            joined@ == ids_at(ids, m.subrange(0, k as int)),
        decreases partial@.len() - k,
    {
        let idx = partial[k];
        assert(m[k as int] == idx as int);
        assert(m.subrange(0, k + 1).drop_last() =~= m.subrange(0, k as int));
        match &record_ids[idx] {
            Some(id) => {
                if k > 0 {
                    joined.append(", ");
                }
                joined.append(id);
                proof {
                    if k == 0 {
                        assert(joined@ =~= ids_at(ids, m.subrange(0, 1)));
                    }
                }
            },
            None => {
                assert(ids[m[k as int]] is Some);
            },
        }
        k += 1;
    }
    assert(m.subrange(0, m.len() as int) =~= m);
    let mut message = owned("ambiguous identifier, matches: ");
    message.append(&joined);
    Err(KanbusError::IssueOperation(message))
}

/// Collect the identifiers of Beads records; a record without one is
/// refused.
pub fn collect_ids(record_ids: &Vec<Option<String>>) -> (r: Result<Vec<String>, KanbusError>)
    ensures
        (forall|i: int| 0 <= i < record_ids@.len() ==> (#[trigger] record_ids@[i]) is Some) ==> (r matches Ok(v)
            && v@.len() == record_ids@.len() && forall|i: int| 0 <= i < v@.len() ==> record_ids@[i] == Some(#[trigger] v@[i])),
        !(forall|i: int| 0 <= i < record_ids@.len() ==> (#[trigger] record_ids@[i]) is Some) ==> (r matches Err(e)
            && e is IssueOperation && e->IssueOperation_0@ == "missing id"@),
{
    let mut ids: Vec<String> = Vec::new();
    let mut i: usize = 0;
    while i < record_ids.len()
        invariant
            i <= record_ids@.len(),
            ids@.len() == i,
            forall|k: int| 0 <= k < i ==> record_ids@[k] == Some(#[trigger] ids@[k]),
            forall|k: int| 0 <= k < i ==> (#[trigger] record_ids@[k]) is Some,
        decreases record_ids@.len() - i,
    {
        match &record_ids[i] {
            Some(id) => {
                ids.push(id.clone());
            },
            None => {
                return Err(issue_error("missing id"));
            },
        }
        i += 1;
    }
    Ok(ids)
}

/// The prefix of the first identifier that has a '-', if any.
pub open spec fn first_prefix(ids: Seq<Seq<char>>) -> Option<Seq<char>>
    decreases ids.len(),
{
    if ids.len() == 0 {
        None
    } else if first_pos(ids[0], '-') >= 0 {
        Some(ids[0].subrange(0, first_pos(ids[0], '-')))
    } else {
        first_prefix(ids.drop_first())
    }
}

/// The project prefix of existing Beads identifiers: what precedes the
/// first '-' of the first identifier that has one.
pub fn derive_prefix(existing_ids: &Vec<String>) -> (r: Result<String, KanbusError>)
    ensures
        match first_prefix(existing_ids.deep_view()) {
            Some(p) => r matches Ok(s) && s@ == p,
            None => r matches Err(e) && e is IssueOperation && e->IssueOperation_0@ == "invalid beads id"@,
        },
{
    let ghost v = existing_ids.deep_view();
    let mut i: usize = 0;
    assert(v.subrange(0, v.len() as int) =~= v);
    while i < existing_ids.len()
        invariant
            i <= existing_ids@.len(),
            v == existing_ids.deep_view(),
            first_prefix(v) == first_prefix(v.subrange(i as int, v.len() as int)),
        decreases existing_ids@.len() - i,
    {
        let ghost rest = v.subrange(i as int, v.len() as int);
        assert(rest[0] == v[i as int]);
        assert(rest.drop_first() =~= v.subrange(i + 1, v.len() as int));
        proof {
            lemma_first_pos(existing_ids@[i as int]@, '-');
        }
        if let Some(p) = find_char(&existing_ids[i], '-') {
            return Ok(substring(&existing_ids[i], 0, p));
        }
        i += 1;
    }
    Err(issue_error("invalid beads id"))
}

/// The `i32` that a text denotes, as `str::parse` reads it: an optional
/// sign followed by at least one ASCII digit, in range.
pub open spec fn parse_i32_text(s: Seq<char>) -> Option<i32> {
    if s.len() == 0 {
        None
    } else {
        let neg = s[0] == '-';
        let d = if s[0] == '+' || s[0] == '-' {
            s.drop_first()
        } else {
            s
        };
        if d.len() == 0 || !all_digits(d) {
            None
        } else if neg {
            if decimal_value(d) <= 2147483648 {
                Some((-(decimal_value(d) as int)) as i32)
            } else {
                None
            }
        } else if decimal_value(d) <= 2147483647 {
            Some(decimal_value(d) as i32)
        } else {
            None
        }
    }
}

/// Parse a signed 32-bit decimal number.
pub fn parse_i32(s: &str) -> (r: Option<i32>)
    ensures
        r == parse_i32_text(s@),
{
    let n = s.unicode_len();
    if n == 0 {
        return None;
    }
    let first = s.get_char(0);
    let neg = first == '-';
    let digits = if first == '+' || first == '-' {
        substring(s, 1, n)
    } else {
        owned(s)
    };
    let ghost d = digits@;
    if digits.unicode_len() == 0 || digits.get_char(0) == '+' {
        proof {
            if d.len() > 0 {
                assert(!('0' <= d[0] <= '9'));
            }
        }
        return None;
    }
    let value = match parse_u32(&digits) {
        Some(v) => v,
        None => return None,
    };
    assert(crate::daemon_protocol::unsigned_digits(d) == d);
    if neg {
        if value <= 2147483648 {
            let signed: i64 = -(value as i64);
            Some(signed as i32)
        } else {
            None
        }
    } else if value <= 2147483647 {
        Some(value as i32)
    } else {
        None
    }
}

/// `s` with every leading repetition of `prefix` removed, as
/// `str::trim_start_matches` gives it.
pub open spec fn strip_all(s: Seq<char>, prefix: Seq<char>) -> Seq<char>
    decreases s.len(),
{
    if prefix.len() > 0 && has_prefix(s, prefix) {
        strip_all(s.subrange(prefix.len() as int, s.len() as int), prefix)
    } else {
        s
    }
}

fn strip_all_of(s: &str, prefix: &str) -> (r: String)
    ensures
        r@ == strip_all(s@, prefix@),
{
    let mut rest = owned(s);
    let p = prefix.unicode_len();
    while p > 0 && starts_with(&rest, prefix)
        invariant
            p == prefix@.len(),
            strip_all(s@, prefix@) == strip_all(rest@, prefix@),
        decreases rest@.len(),
    {
        let n = rest.unicode_len();
        rest = substring(&rest, p, n);
    }
    rest
}

/// The largest child number among identifiers `{parent}.{n}`, and 0.
pub open spec fn max_child_suffix(ids: Seq<Seq<char>>, parent: Seq<char>) -> int
    decreases ids.len(),
{
    if ids.len() == 0 {
        0
    } else {
        let m = max_child_suffix(ids.drop_last(), parent);
        let prefix = parent + seq!['.'];
        if has_prefix(ids.last(), prefix) {
            match parse_i32_text(strip_all(ids.last(), prefix)) {
                Some(v) => if v as int > m {
                    v as int
                } else {
                    m
                },
                None => m,
            }
        } else {
            m
        }
    }
}

proof fn lemma_decimal_text(n: nat)
    ensures
        decimal_text(n).len() >= 1,
        all_digits(decimal_text(n)),
        decimal_value(decimal_text(n)) == n,
    decreases n,
{
    let s = decimal_text(n);
    if n < 10 {
        assert(s.drop_last() =~= Seq::<char>::empty());
        assert(decimal_value(Seq::<char>::empty()) == 0);
        assert(decimal_value(s) == decimal_value(s.drop_last()) * 10 + crate::daemon_protocol::digit_value(s.last()));
        assert(digit_char(n) as u32 == ('0' as u32) + n) by {
            if n == 0 {} else if n == 1 {} else if n == 2 {} else if n == 3 {} else if n == 4 {}
            else if n == 5 {} else if n == 6 {} else if n == 7 {} else if n == 8 {} else {}
        }
    } else {
        lemma_decimal_text(n / 10);
        let d = n % 10;
        assert(digit_char(d) as u32 == ('0' as u32) + d) by {
            if d == 0 {} else if d == 1 {} else if d == 2 {} else if d == 3 {} else if d == 4 {}
            else if d == 5 {} else if d == 6 {} else if d == 7 {} else if d == 8 {} else {}
        }
        let t = decimal_text(n / 10);
        assert(s == t.push(digit_char(d)));
        assert(s.drop_last() =~= t);
        assert forall|i: int| 0 <= i < s.len() implies '0' <= #[trigger] s[i] <= '9' by {
            if i < t.len() {
                assert(s[i] == t[i]);
            }
        }
        assert(decimal_value(s) == decimal_value(s.drop_last()) * 10 + crate::daemon_protocol::digit_value(s.last()));
        assert(n == (n / 10) * 10 + d);
    }
}

proof fn lemma_strip_child(parent: Seq<char>, x: Seq<char>)
    requires
        x.len() >= 1,
        all_digits(x),
    ensures
        strip_all(parent + seq!['.'] + x, parent + seq!['.']) == x,
{
    let p = parent + seq!['.'];
    let s = p + x;
    assert(s.subrange(0, p.len() as int) =~= p);
    assert(s.subrange(p.len() as int, s.len() as int) =~= x);
    if has_prefix(x, p) {
        assert(x.subrange(0, p.len() as int)[p.len() - 1] == p[p.len() - 1]);
        assert(x[p.len() - 1] == '.');
        assert('0' <= x[p.len() - 1] <= '9');
    }
    assert(!has_prefix(x, p));
    assert(strip_all(x, p) == x);
    assert(has_prefix(s, p));
    assert(strip_all(s, p) == strip_all(s.subrange(p.len() as int, s.len() as int), p));
}

proof fn lemma_parse_decimal(n: nat)
    requires
        n <= 2147483647,
    ensures
        parse_i32_text(decimal_text(n)) == Some(n as i32),
{
    lemma_decimal_text(n);
    let s = decimal_text(n);
    assert('0' <= s[0] <= '9');
}

proof fn lemma_max_child_suffix_grows(ids: Seq<Seq<char>>, parent: Seq<char>)
    requires
        ids.len() > 0,
    ensures
        max_child_suffix(ids.drop_last(), parent) <= max_child_suffix(ids, parent),
{
}

/// No child number is negative: the largest is at least 0.
pub proof fn lemma_max_child_suffix_nonnegative(ids: Seq<Seq<char>>, parent: Seq<char>)
    ensures
        max_child_suffix(ids, parent) >= 0,
    decreases ids.len(),
{
    if ids.len() > 0 {
        lemma_max_child_suffix_nonnegative(ids.drop_last(), parent);
    }
}

/// Every child number `n` of an existing identifier `{parent}.{n}` is at
/// most the largest child number.
pub proof fn lemma_child_numbers_below(ids: Seq<Seq<char>>, parent: Seq<char>, k: int, n: nat)
    requires
        0 <= k < ids.len(),
        n <= 2147483647,
        ids[k] == parent + seq!['.'] + decimal_text(n),
    ensures
        n <= max_child_suffix(ids, parent),
    decreases ids.len(),
{
    lemma_max_child_suffix_grows(ids, parent);
    if k == ids.len() - 1 {
        lemma_decimal_text(n);
        lemma_strip_child(parent, decimal_text(n));
        lemma_parse_decimal(n);
        let pre = parent + seq!['.'];
        assert(ids.last().subrange(0, pre.len() as int) =~= pre);
        assert(has_prefix(ids.last(), pre));
    } else {
        assert(ids.drop_last()[k] == ids[k]);
        lemma_child_numbers_below(ids.drop_last(), parent, k, n);
    }
}

/// The next child identifier `{parent}.{m + 1}`, with `m` the largest child
/// number, is none of the existing identifiers.
pub proof fn lemma_next_child_is_new(ids: Seq<Seq<char>>, parent: Seq<char>)
    requires
        max_child_suffix(ids, parent) < i32::MAX,
    ensures
        !ids.contains(parent + seq!['.'] + decimal_text((max_child_suffix(ids, parent) + 1) as nat)),
{
    lemma_max_child_suffix_nonnegative(ids, parent);
    let n = (max_child_suffix(ids, parent) + 1) as nat;
    if ids.contains(parent + seq!['.'] + decimal_text(n)) {
        let k = choose|k: int| 0 <= k < ids.len() && ids[k] == parent + seq!['.'] + decimal_text(n);
        lemma_child_numbers_below(ids, parent, k, n);
    }
}

/// The next child number for `parent`: one more than the largest among the
/// existing identifiers.
pub fn next_child_suffix(existing_ids: &Vec<String>, parent: &str) -> (r: i32)
    requires
        max_child_suffix(existing_ids.deep_view(), parent@) < i32::MAX,
    ensures
        r == max_child_suffix(existing_ids.deep_view(), parent@) + 1,
        forall|k: int, n: nat|
            0 <= k < existing_ids@.len() && n <= 2147483647 && #[trigger] existing_ids.deep_view()[k] == parent@ + seq!['.']
                + #[trigger] decimal_text(n) ==> n < r,
        !existing_ids.deep_view().contains(parent@ + seq!['.'] + decimal_text(r as nat)),
{
    proof {
        let ids = existing_ids.deep_view();
        assert forall|k: int, n: nat|
            0 <= k < existing_ids@.len() && n <= 2147483647 && #[trigger] ids[k] == parent@ + seq!['.']
                + #[trigger] decimal_text(n) implies n < max_child_suffix(ids, parent@) + 1 by {
            lemma_child_numbers_below(ids, parent@, k, n);
        }
        lemma_next_child_is_new(ids, parent@);
    }
    let ghost v = existing_ids.deep_view();
    let mut prefix = owned(parent);
    push_char(&mut prefix, '.');
    let mut max_suffix: i32 = 0;
    let mut i: usize = 0;
    while i < existing_ids.len()
        invariant
            i <= existing_ids@.len(),
            v == existing_ids.deep_view(),
            prefix@ == parent@ + seq!['.'],
            max_suffix == max_child_suffix(v.subrange(0, i as int), parent@),
        decreases existing_ids@.len() - i,
    {
        assert(v.subrange(0, i + 1).drop_last() =~= v.subrange(0, i as int));
        let id = &existing_ids[i];
        if starts_with(id, &prefix) {
            let suffix = strip_all_of(id, &prefix);
            if let Some(value) = parse_i32(&suffix) {
                if value > max_suffix {
                    max_suffix = value;
                }
            }
        }
        i += 1;
    }
    assert(v.subrange(0, existing_ids@.len() as int) =~= v);
    max_suffix + 1
}

/// Characters of a random Beads slug.
pub open spec fn slug_alphabet() -> Seq<char> {
    seq!['a', 'b', 'c', 'd', 'e', 'f', 'g', 'h', 'i', 'j', 'k', 'l', 'm', 'n', 'o', 'p', 'q', 'r', 's', 't', 'u', 'v', 'w', 'x', 'y', 'z', '0', '1', '2', '3', '4', '5', '6', '7', '8', '9']
}

/// A random index below `bound`: `rand::Rng::gen_range(0..bound)` on the
/// thread's generator. Which index comes out is chance; the call panics
/// only if the operating system's random source fails.
#[verifier::external_body]
fn random_index(bound: usize) -> (r: usize)
    requires
        bound > 0,
    ensures
        r < bound,
{
    rand::Rng::gen_range(&mut rand::thread_rng(), 0..bound)
}

/// The slug that drawn alphabet positions spell.
pub open spec fn slug_text(indices: Seq<usize>) -> Seq<char> {
    indices.map_values(|i: usize| slug_alphabet()[i as int])
}

/// Three characters of the slug alphabet.
pub open spec fn is_slug(s: Seq<char>) -> bool {
    s.len() == 3 && forall|i: int| 0 <= i < 3 ==> slug_alphabet().contains(#[trigger] s[i])
}

/// The slug spelled by positions in the slug alphabet.
pub fn slug_from_indices(indices: &Vec<usize>) -> (r: String)
    requires
        forall|i: int| 0 <= i < indices@.len() ==> #[trigger] indices@[i] < 36,
    ensures
        r@ == slug_text(indices@),
{
    let alphabet: Vec<char> = vec!['a', 'b', 'c', 'd', 'e', 'f', 'g', 'h', 'i', 'j', 'k', 'l', 'm', 'n', 'o', 'p', 'q', 'r', 's', 't', 'u', 'v', 'w', 'x', 'y', 'z', '0', '1', '2', '3', '4', '5', '6', '7', '8', '9'];
    assert(alphabet@ =~= slug_alphabet());
    let mut slug = String::new();
    let mut k: usize = 0;
    while k < indices.len()
        invariant
            k <= indices@.len(),
            alphabet@ == slug_alphabet(),
            forall|i: int| 0 <= i < indices@.len() ==> #[trigger] indices@[i] < 36,
            slug@ == slug_text(indices@.take(k as int)),
        decreases indices@.len() - k,
    {
        let c = alphabet[indices[k]];
        push_char(&mut slug, c);
        assert(slug_text(indices@.take(k + 1)) =~= slug_text(indices@.take(k as int)).push(c));
        k += 1;
    }
    assert(indices@.take(k as int) =~= indices@);
    slug
}

/// A random three-character slug of lowercase letters and digits: three
/// random positions in the slug alphabet, spelled out.
pub fn generate_slug() -> (r: String)
    ensures
        is_slug(r@),
        exists|indices: Seq<usize>|
            indices.len() == 3 && (forall|i: int| 0 <= i < 3 ==> #[trigger] indices[i] < 36) && r@ == #[trigger] slug_text(
                indices,
            ),
{
    let mut indices: Vec<usize> = Vec::new();
    let mut k: usize = 0;
    while k < 3
        invariant
            k <= 3,
            indices@.len() == k,
            forall|i: int| 0 <= i < k ==> #[trigger] indices@[i] < 36,
        decreases 3 - k,
    {
        indices.push(random_index(36));
        k += 1;
    }
    let slug = slug_from_indices(&indices);
    proof {
        assert forall|i: int| 0 <= i < 3 implies slug_alphabet().contains(#[trigger] slug@[i]) by {
            assert(slug@[i] == slug_alphabet()[indices@[i] as int]);
        }
    }
    slug
}

/// Drawing the slugs `drawn`, in order, gave the identifier `id`: each is a
/// slug, there were at most ten, and the last is the first whose
/// identifier is free.
pub open spec fn slug_draws_give(prefix: Seq<char>, existing: Seq<Seq<char>>, drawn: Seq<Seq<char>>, id: Seq<char>) -> bool {
    &&& 1 <= drawn.len() <= 10
    &&& forall|i: int| 0 <= i < drawn.len() ==> is_slug(#[trigger] drawn[i])
    &&& first_free_identifier(prefix, drawn.drop_last(), existing) is None
    &&& first_free_identifier(prefix, drawn, existing) == Some(id)
}

/// Ten slugs were drawn and every identifier they give is in use.
pub open spec fn slug_draws_fail(prefix: Seq<char>, existing: Seq<Seq<char>>, drawn: Seq<Seq<char>>) -> bool {
    &&& drawn.len() == 10
    &&& forall|i: int| 0 <= i < drawn.len() ==> is_slug(#[trigger] drawn[i])
    &&& first_free_identifier(prefix, drawn, existing) is None
}

/// Whether a child number can be given under `parent` (the largest
/// existing one is below the largest `i32`).
pub fn child_suffix_in_range(existing_ids: &Vec<String>, parent: &str) -> (r: bool)
    ensures
        r == (max_child_suffix(existing_ids.deep_view(), parent@) < i32::MAX),
{
    let ghost v = existing_ids.deep_view();
    let mut prefix = owned(parent);
    push_char(&mut prefix, '.');
    let mut max_suffix: i32 = 0;
    let mut i: usize = 0;
    while i < existing_ids.len()
        invariant
            i <= existing_ids@.len(),
            v == existing_ids.deep_view(),
            prefix@ == parent@ + seq!['.'],
            max_suffix == max_child_suffix(v.subrange(0, i as int), parent@),
        decreases existing_ids@.len() - i,
    {
        assert(v.subrange(0, i + 1).drop_last() =~= v.subrange(0, i as int));
        let id = &existing_ids[i];
        if starts_with(id, &prefix) {
            let suffix = strip_all_of(id, &prefix);
            if let Some(value) = parse_i32(&suffix) {
                if value > max_suffix {
                    max_suffix = value;
                }
            }
        }
        i += 1;
    }
    assert(v.subrange(0, existing_ids@.len() as int) =~= v);
    max_suffix < i32::MAX
}

/// A slug identifier: the prefix, a '-', and three slug characters.
pub open spec fn is_slug_identifier(id: Seq<char>, prefix: Seq<char>) -> bool {
    exists|slug: Seq<char>|
        #![trigger prefix + seq!['-'] + slug]
        slug.len() == 3 && (forall|i: int| 0 <= i < 3 ==> slug_alphabet().contains(#[trigger] slug[i])) && id == prefix + seq!['-'] + slug
}

/// A new Beads identifier: the parent's identifier with the next child
/// number, or else a fresh random slug identifier not yet taken (ten
/// tries).
pub fn generate_identifier(existing_ids: &Vec<String>, prefix: &str, parent: Option<&str>) -> (r: Result<String, KanbusError>)
    requires
        parent matches Some(p) ==> max_child_suffix(existing_ids.deep_view(), p@) < i32::MAX,
    ensures
        parent matches Some(p) ==> (r matches Ok(id) && id@ == p@ + seq!['.'] + crate::issue_line::signed_text(
            max_child_suffix(existing_ids.deep_view(), p@) + 1,
        )),
        parent is Some ==> (r matches Ok(id) && !existing_ids.deep_view().contains(id@)),
        parent is None ==> (r matches Ok(id) ==> is_slug_identifier(id@, prefix@) && !existing_ids.deep_view().contains(id@)
            && exists|drawn: Seq<Seq<char>>| #[trigger] slug_draws_give(prefix@, existing_ids.deep_view(), drawn, id@)),
        parent is None ==> (r matches Err(e) ==> e is IdGenerationFailed && e->IdGenerationFailed_0@
            == "unable to generate unique id after 10 attempts"@ && exists|drawn: Seq<Seq<char>>|
            #[trigger] slug_draws_fail(prefix@, existing_ids.deep_view(), drawn)),
{
    if let Some(parent_id) = parent {
        proof {
            lemma_max_child_suffix_nonnegative(existing_ids.deep_view(), parent_id@);
            lemma_next_child_is_new(existing_ids.deep_view(), parent_id@);
        }
        let suffix = next_child_suffix(existing_ids, parent_id);
        let mut id = owned(parent_id);
        push_char(&mut id, '.');
        let label = crate::issue_line::priority_text(suffix);
        let number = substring(&label, 1, label.unicode_len());
        id.append(&number);
        return Ok(id);
    }
    let ghost existing = existing_ids.deep_view();
    let mut drawn: Vec<String> = Vec::new();
    let mut attempt: usize = 0;
    let mut found = false;
    while attempt < 10
        invariant_except_break
            !found,
            attempt <= 10,
            drawn@.len() == attempt,
            forall|i: int| 0 <= i < drawn@.len() ==> is_slug(#[trigger] drawn.deep_view()[i]),
            first_free_identifier(prefix@, drawn.deep_view(), existing) is None,
            existing == existing_ids.deep_view(),
        ensures
            existing == existing_ids.deep_view(),
            forall|i: int| 0 <= i < drawn@.len() ==> is_slug(#[trigger] drawn.deep_view()[i]),
            found ==> 1 <= drawn@.len() <= 10 && first_free_identifier(prefix@, drawn.deep_view().drop_last(), existing) is None
                && first_free_identifier(prefix@, drawn.deep_view(), existing) is Some,
            !found ==> drawn@.len() == 10 && first_free_identifier(prefix@, drawn.deep_view(), existing) is None,
        decreases 10 - attempt,
    {
        let slug = generate_slug();
        let mut identifier = owned(prefix);
        push_char(&mut identifier, '-');
        identifier.append(&slug);
        assert(identifier@ =~= candidate_identifier(prefix@, slug@));
        let free = !contains_str(existing_ids, &identifier);
        let ghost before = drawn.deep_view();
        drawn.push(slug);
        proof {
            assert(drawn.deep_view() =~= before.push(drawn.deep_view().last()));
            assert(drawn.deep_view().drop_last() =~= before);
        }
        if free {
            found = true;
            break;
        }
        attempt += 1;
    }
    let picked = pick_identifier(prefix, &drawn, existing_ids);
    proof {
        lemma_first_free_identifier(prefix@, drawn.deep_view(), existing);
        if let Ok(id) = &picked {
            let i = choose|i: int| 0 <= i < drawn.deep_view().len() && id@ == candidate_identifier(prefix@, #[trigger] drawn.deep_view()[i]);
            assert(is_slug(drawn.deep_view()[i]));
            assert(is_slug_identifier(id@, prefix@));
            assert(slug_draws_give(prefix@, existing, drawn.deep_view(), id@));
        } else {
            assert(slug_draws_fail(prefix@, existing, drawn.deep_view()));
        }
    }
    match picked {
        Ok(id) => Ok(id),
        Err(e) => Err(e),
    }
}

/// The issue that a new Beads record describes.
pub open spec fn new_beads_issue(
    issue: IssueData,
    title: Seq<char>,
    issue_type: Option<Seq<char>>,
    priority: Option<u8>,
    assignee: Option<Seq<char>>,
    parent: Option<Seq<char>>,
    description: Option<Seq<char>>,
    created_at: i64,
    created_by: Seq<char>,
) -> bool {
    &&& issue.title@ == title
    &&& issue.description@ == (match description {
        Some(d) => d,
        None => seq![],
    })
    &&& issue.issue_type@ == (match issue_type {
        Some(t) => t,
        None => "task"@,
    })
    &&& issue.status@ == "open"@
    &&& issue.priority == (match priority {
        Some(p) => p as i32,
        None => 2i32,
    })
    &&& crate::models::opt_text_view(issue.assignee) == assignee
    &&& crate::models::opt_text_view(issue.creator) == Some(created_by)
    &&& crate::models::opt_text_view(issue.parent) == parent
    &&& issue.labels@.len() == 0
    &&& (match parent {
        Some(p) => issue.dependencies@.len() == 1 && issue.dependencies@[0].target@ == p
            && issue.dependencies@[0].dependency_type@ == "parent-child"@,
        None => issue.dependencies@.len() == 0,
    })
    &&& issue.comments@.len() == 0
    &&& issue.created_at == created_at
    &&& issue.updated_at == created_at
    &&& issue.closed_at is None
    &&& issue.agent is None
    &&& issue.right_now_summary is None
    &&& issue.right_now_updated_at is None
    &&& issue.custom@.len() == 0
}

fn opt_owned(o: Option<&str>) -> (r: Option<String>)
    ensures
        crate::models::opt_text_view(r) == crate::agent_metadata::opt_str_view(o),
{
    match o {
        Some(t) => Some(owned(t)),
        None => None,
    }
}

/// An object entry with the key `key` holding the text `text`.
pub open spec fn text_entry(e: (String, JsonValue), key: Seq<char>, text: Seq<char>) -> bool {
    &&& e.0@ == key
    &&& e.1 matches JsonValue::Text(t) && t@ == text
}

/// The record of a new Beads issue as it is appended to `issues.jsonl`:
/// identifier, title, description, status, priority, type, the creation
/// time (also as the update time), creator and owner; the assignee when
/// there is one; for a child, its one "parent-child" dependency; and no
/// comments.
pub open spec fn is_new_beads_record(
    r: JsonValue,
    issue: IssueData,
    created_at: Seq<char>,
    created_by: Seq<char>,
    owner: Seq<char>,
) -> bool {
    let a: int = if issue.assignee is Some { 1 } else { 0 };
    let d: int = if issue.parent is Some { 1 } else { 0 };
    r matches JsonValue::Object(entries) && {
        let es = entries@;
        &&& es.len() == 11 + a + d
        &&& text_entry(es[0], "id"@, issue.identifier@)
        &&& text_entry(es[1], "title"@, issue.title@)
        &&& text_entry(es[2], "description"@, issue.description@)
        &&& text_entry(es[3], "status"@, issue.status@)
        &&& es[4].0@ == "priority"@
        &&& es[4].1 matches JsonValue::Number(n) && n@ == crate::issue_line::signed_text(issue.priority as int)
        &&& text_entry(es[5], "issue_type"@, issue.issue_type@)
        &&& text_entry(es[6], "created_at"@, created_at)
        &&& text_entry(es[7], "created_by"@, created_by)
        &&& text_entry(es[8], "updated_at"@, created_at)
        &&& text_entry(es[9], "owner"@, owner)
        &&& (issue.assignee matches Some(x) ==> text_entry(es[10], "assignee"@, x@))
        &&& (issue.parent is Some ==> es[10 + a].0@ == "dependencies"@)
        &&& (issue.parent matches Some(p) ==> (es[10 + a].1 matches JsonValue::Array(items) && items@.len() == 1
            && is_dependency_record(items@[0], issue.identifier@, p@, "parent-child"@, created_at, created_by)))
        &&& es[10 + a + d].0@ == "comments"@
        &&& es[10 + a + d].1 matches JsonValue::Array(c) && c@.len() == 0
    }
}

fn text_pair(key: &str, text: &str) -> (r: (String, JsonValue))
    ensures
        text_entry(r, key@, text@),
{
    (owned(key), JsonValue::Text(owned(text)))
}

fn signed_number_text(p: i32) -> (r: String)
    ensures
        r@ == crate::issue_line::signed_text(p as int),
{
    if p < 0 {
        let magnitude: u64 = (-(p as i64)) as u64;
        let mut s = String::new();
        push_char(&mut s, '-');
        s.append(&decimal(magnitude));
        s
    } else {
        decimal(p as u64)
    }
}

/// Build the record of a new Beads issue, to be appended to
/// `.beads/issues.jsonl`, from the issue `create_beads_issue` describes,
/// the creation time's text, its creator and the record's owner.
pub fn new_beads_record(issue: &IssueData, created_at: &str, created_by: &str, owner: &str) -> (r: JsonValue)
    ensures
        is_new_beads_record(r, *issue, created_at@, created_by@, owner@),
{
    let mut es: Vec<(String, JsonValue)> = Vec::new();
    es.push(text_pair("id", issue.identifier.as_str()));
    es.push(text_pair("title", issue.title.as_str()));
    es.push(text_pair("description", issue.description.as_str()));
    es.push(text_pair("status", issue.status.as_str()));
    es.push((owned("priority"), JsonValue::Number(signed_number_text(issue.priority))));
    es.push(text_pair("issue_type", issue.issue_type.as_str()));
    es.push(text_pair("created_at", created_at));
    es.push(text_pair("created_by", created_by));
    es.push(text_pair("updated_at", created_at));
    es.push(text_pair("owner", owner));
    if let Some(x) = &issue.assignee {
        es.push(text_pair("assignee", x.as_str()));
    }
    if let Some(p) = &issue.parent {
        let link = dependency_object(issue.identifier.as_str(), p.as_str(), "parent-child", created_at, created_by);
        let mut items: Vec<JsonValue> = Vec::new();
        items.push(link);
        es.push((owned("dependencies"), JsonValue::Array(items)));
    }
    es.push((owned("comments"), JsonValue::Array(Vec::new())));
    JsonValue::Object(es)
}

/// Create a Beads issue: check the records of `.beads/issues.jsonl` (given
/// by their identifiers, or the error that reading them gave), choose the
/// new identifier, and describe the new issue; writing the record is the
/// caller's.
pub fn create_beads_issue(
    records: Result<Vec<Option<String>>, KanbusError>,
    title: &str,
    issue_type: Option<&str>,
    priority: Option<u8>,
    assignee: Option<&str>,
    parent: Option<&str>,
    description: Option<&str>,
    created_at: i64,
    created_by: &str,
) -> (r: Result<IssueData, KanbusError>)
    requires
        records matches Ok(rs) && parent matches Some(p) ==> max_child_suffix(
            record_ids_view(rs@).map_values(|o: Option<Seq<char>>| o->Some_0),
            p@,
        ) < i32::MAX,
    ensures
        records is Err ==> r == Err::<IssueData, KanbusError>(records->Err_0),
        records matches Ok(rs) ==> ({
            let ids = record_ids_view(rs@);
            if rs@.len() == 0 {
                r matches Err(e) && e is IssueOperation && e->IssueOperation_0@ == "no beads issues available"@
            } else if !(forall|i: int| 0 <= i < ids.len() ==> (#[trigger] ids[i]) is Some) {
                r matches Err(e) && e is IssueOperation && e->IssueOperation_0@ == "missing id"@
            } else {
                let known = ids.map_values(|o: Option<Seq<char>>| o->Some_0);
                if parent matches Some(p) && !known.contains(p@) {
                    r matches Err(e) && e is IssueOperation && e->IssueOperation_0@ == "not found"@
                } else if first_prefix(known) is None {
                    r matches Err(e) && e is IssueOperation && e->IssueOperation_0@ == "invalid beads id"@
                } else {
                    match r {
                        Ok(issue) => new_beads_issue(
                            issue,
                            title@,
                            crate::agent_metadata::opt_str_view(issue_type),
                            priority,
                            crate::agent_metadata::opt_str_view(assignee),
                            crate::agent_metadata::opt_str_view(parent),
                            crate::agent_metadata::opt_str_view(description),
                            created_at,
                            created_by@,
                        ) && match parent {
                            Some(p) => issue.identifier@ == p@ + seq!['.'] + crate::issue_line::signed_text(
                                max_child_suffix(known, p@) + 1,
                            ) && !known.contains(issue.identifier@),
                            None => is_slug_identifier(issue.identifier@, first_prefix(known)->Some_0) && !known.contains(
                                issue.identifier@,
                            ) && exists|drawn: Seq<Seq<char>>|
                                #[trigger] slug_draws_give(first_prefix(known)->Some_0, known, drawn, issue.identifier@),
                        },
                        Err(e) => parent is None && e is IdGenerationFailed && e->IdGenerationFailed_0@
                            == "unable to generate unique id after 10 attempts"@ && exists|drawn: Seq<Seq<char>>|
                            #[trigger] slug_draws_fail(first_prefix(known)->Some_0, known, drawn),
                    }
                }
            }
        }),
{
    let records = match records {
        Ok(rs) => rs,
        Err(e) => return Err(e),
    };
    let ghost ids = record_ids_view(records@);
    if records.len() == 0 {
        return Err(issue_error("no beads issues available"));
    }
    let existing_ids = match collect_ids(&records) {
        Ok(v) => v,
        Err(e) => {
            proof {
                if forall|i: int| 0 <= i < ids.len() ==> (#[trigger] ids[i]) is Some {
                    assert forall|i: int| 0 <= i < records@.len() implies (#[trigger] records@[i]) is Some by {
                        assert(ids[i] is Some);
                    }
                }
            }
            return Err(e);
        },
    };
    let ghost known = ids.map_values(|o: Option<Seq<char>>| o->Some_0);
    assert(existing_ids.deep_view() =~= known) by {
        assert forall|i: int| 0 <= i < known.len() implies existing_ids.deep_view()[i] == known[i] by {
            assert(records@[i] == Some(existing_ids@[i]));
        }
    }
    assert(forall|i: int| 0 <= i < ids.len() ==> (#[trigger] ids[i]) is Some) by {
        assert forall|i: int| 0 <= i < ids.len() implies (#[trigger] ids[i]) is Some by {
            assert(records@[i] == Some(existing_ids@[i]));
        }
    }
    if let Some(parent_id) = parent {
        if !contains_str(&existing_ids, parent_id) {
            return Err(issue_error("not found"));
        }
    }
    let prefix = match derive_prefix(&existing_ids) {
        Ok(p) => p,
        Err(e) => return Err(e),
    };
    let identifier = match generate_identifier(&existing_ids, &prefix, parent) {
        Ok(id) => id,
        Err(e) => return Err(e),
    };
    let mut dependencies: Vec<DependencyLink> = Vec::new();
    if let Some(parent_id) = parent {
        dependencies.push(DependencyLink { target: owned(parent_id), dependency_type: owned("parent-child") });
    }
    let issue = IssueData {
        identifier,
        title: owned(title),
        description: match description {
            Some(d) => owned(d),
            None => String::new(),
        },
        issue_type: match issue_type {
            Some(t) => owned(t),
            None => owned("task"),
        },
        status: owned("open"),
        priority: match priority {
            Some(p) => p as i32,
            None => 2,
        },
        assignee: opt_owned(assignee),
        creator: Some(owned(created_by)),
        parent: opt_owned(parent),
        labels: Vec::new(),
        dependencies,
        comments: Vec::new(),
        created_at,
        updated_at: created_at,
        closed_at: None,
        agent: None,
        right_now_summary: None,
        right_now_updated_at: None,
        custom: Vec::new(),
    };
    Ok(issue)
}

/// Identifiers of JSON records: the "id" field, when it is a string.
pub open spec fn json_ids(records: Seq<JsonValue>) -> Seq<Option<Seq<char>>> {
    records.map_values(|r: JsonValue| text_field(r, "id"@))
}

fn record_id_list(records: &Vec<JsonValue>) -> (r: Vec<Option<String>>)
    ensures
        record_ids_view(r@) == json_ids(records@),
{
    let mut out: Vec<Option<String>> = Vec::new();
    let mut i: usize = 0;
    while i < records.len()
        invariant
            i <= records@.len(),
            record_ids_view(out@) == json_ids(records@).subrange(0, i as int),
        decreases records@.len() - i,
    {
        let ghost before = out@;
        let id = match text_of(&records[i], "id") {
            Some(t) => Some(owned(t)),
            None => None,
        };
        out.push(id);
        assert(record_ids_view(out@) =~= record_ids_view(before).push(json_ids(records@)[i as int]));
        assert(json_ids(records@).subrange(0, i + 1) =~= json_ids(records@).subrange(0, i as int).push(
            json_ids(records@)[i as int],
        ));
        i += 1;
    }
    assert(json_ids(records@).subrange(0, records@.len() as int) =~= json_ids(records@));
    out
}

fn exact_record_index(ids: &Vec<Option<String>>, identifier: &str) -> (r: Option<usize>)
    ensures
        match r {
            Some(i) => i == exact_index(record_ids_view(ids@), identifier@) && i < ids@.len(),
            None => exact_index(record_ids_view(ids@), identifier@) == -1,
        },
{
    let ghost v = record_ids_view(ids@);
    let mut i: usize = 0;
    while i < ids.len()
        invariant
            i <= ids@.len(),
            v == record_ids_view(ids@),
            forall|j: int| 0 <= j < i ==> v[j] != Some(identifier@),
        decreases ids@.len() - i,
    {
        if let Some(id) = &ids[i] {
            if equals(id, identifier) {
                proof {
                    lemma_exact_index(v, identifier@, i as int);
                }
                return Some(i);
            }
        }
        i += 1;
    }
    proof {
        lemma_exact_index(v, identifier@, v.len() as int);
    }
    None
}

/// Whether two values have the same fields, but for the fields `k1` and `k2`.
pub open spec fn same_fields_except2(a: JsonValue, b: JsonValue, k1: Seq<char>, k2: Seq<char>) -> bool {
    forall|k: Seq<char>| k != k1 && k != k2 ==> #[trigger] get_field(a, k) == get_field(b, k)
}

/// Whether an object has no fields but those named in `keys`.
pub open spec fn only_fields(v: JsonValue, keys: Seq<Seq<char>>) -> bool {
    forall|k: Seq<char>| #[trigger] get_field(v, k) is Some ==> keys.contains(k)
}

/// The elements of the field `key`, or nothing when it holds no array.
pub open spec fn array_or_empty(v: JsonValue, key: Seq<char>) -> Seq<JsonValue> {
    match array_field(v, key) {
        Some(a) => a,
        None => seq![],
    }
}

/// Whether `c` is the comment record with the given number and fields.
pub open spec fn is_comment_record(
    c: JsonValue,
    number: nat,
    issue_id: Seq<char>,
    author: Seq<char>,
    text: Seq<char>,
    created_at: Seq<char>,
) -> bool {
    &&& c is Object
    &&& get_field(c, "id"@) matches Some(JsonValue::Number(n)) && n@ == decimal_text(number)
    &&& text_field(c, "issue_id"@) == Some(issue_id)
    &&& text_field(c, "author"@) == Some(author)
    &&& text_field(c, "text"@) == Some(text)
    &&& text_field(c, "created_at"@) == Some(created_at)
    &&& only_fields(c, seq!["id"@, "issue_id"@, "author"@, "text"@, "created_at"@])
}

fn comment_object(number: u64, issue_id: &str, author: &str, text: &str, created_at: &str) -> (c: JsonValue)
    ensures
        is_comment_record(c, number as nat, issue_id@, author@, text@, created_at@),
{
    let empty = JsonValue::Object(Vec::new());
    assert(forall|k: Seq<char>| #[trigger] get_field(empty, k) is None);
    let c1 = put_field(empty, "id", JsonValue::Number(decimal(number)));
    let c2 = put_field(c1, "issue_id", JsonValue::Text(owned(issue_id)));
    let c3 = put_field(c2, "author", JsonValue::Text(owned(author)));
    let c4 = put_field(c3, "text", JsonValue::Text(owned(text)));
    let c5 = put_field(c4, "created_at", JsonValue::Text(owned(created_at)));
    proof {
        let keys = seq!["id"@, "issue_id"@, "author"@, "text"@, "created_at"@];
        assert forall|k: Seq<char>| #[trigger] get_field(c5, k) is Some implies keys.contains(k) by {
            if !keys.contains(k) {
                assert(k != keys[0] && k != keys[1] && k != keys[2] && k != keys[3] && k != keys[4]);
                assert(get_field(c5, k) == get_field(c4, k));
                assert(get_field(c4, k) == get_field(c3, k));
                assert(get_field(c3, k) == get_field(c2, k));
                assert(get_field(c2, k) == get_field(c1, k));
                assert(get_field(c1, k) == get_field(empty, k));
            }
        }
        reveal_strlit("id");
        reveal_strlit("issue_id");
        reveal_strlit("author");
        reveal_strlit("text");
        reveal_strlit("created_at");
        assert("id"@.len() == 2 && "issue_id"@.len() == 8 && "author"@.len() == 6 && "text"@.len() == 4
            && "created_at"@.len() == 10);
        assert(get_field(c5, "id"@) == get_field(c4, "id"@));
        assert(get_field(c4, "id"@) == get_field(c3, "id"@));
        assert(get_field(c3, "id"@) == get_field(c2, "id"@));
        assert(get_field(c2, "id"@) == get_field(c1, "id"@));
        assert(get_field(c5, "issue_id"@) == get_field(c4, "issue_id"@));
        assert(get_field(c4, "issue_id"@) == get_field(c3, "issue_id"@));
        assert(get_field(c3, "issue_id"@) == get_field(c2, "issue_id"@));
        assert(get_field(c5, "author"@) == get_field(c4, "author"@));
        assert(get_field(c4, "author"@) == get_field(c3, "author"@));
        assert(get_field(c5, "text"@) == get_field(c4, "text"@));
    }
    c5
}

/// Whether `new` is `old` with the comment appended and the update time set.
pub open spec fn comment_added(
    new: JsonValue,
    old: JsonValue,
    issue_id: Seq<char>,
    author: Seq<char>,
    text: Seq<char>,
    created_at: Seq<char>,
) -> bool {
    let before = array_or_empty(old, "comments"@);
    &&& new is Object
    &&& same_fields_except2(new, old, "comments"@, "updated_at"@)
    &&& text_field(new, "updated_at"@) == Some(created_at)
    &&& array_field(new, "comments"@) matches Some(a) && a.len() == before.len() + 1 && a.drop_last() == before
        && is_comment_record(a.last(), before.len() + 1, issue_id, author, text, created_at)
}

/// Add a comment to the Beads record whose identifier is exactly
/// `identifier`: the comment gets the next number, and the record's update
/// time becomes `created_at`. The records come back changed.
pub fn add_beads_comment(
    records: Vec<JsonValue>,
    identifier: &str,
    author: &str,
    text: &str,
    created_at: &str,
) -> (r: Result<Vec<JsonValue>, KanbusError>)
    requires
        forall|i: int| 0 <= i < records@.len() ==> array_or_empty(#[trigger] records@[i], "comments"@).len() < u64::MAX,
    ensures
        ({
            let e = exact_index(json_ids(records@), identifier@);
            if e < 0 {
                r matches Err(err) && err is IssueOperation && err->IssueOperation_0@ == "not found"@
            } else {
                r matches Ok(out) && out@.len() == records@.len() && (forall|j: int|
                    0 <= j < records@.len() && j != e ==> out@[j] == records@[j]) && comment_added(
                    out@[e],
                    records@[e],
                    identifier@,
                    author@,
                    text@,
                    created_at@,
                )
            }
        }),
{
    let ids = record_id_list(&records);
    let idx = match exact_record_index(&ids, identifier) {
        Some(i) => i,
        None => return Err(issue_error("not found")),
    };
    let mut records = records;
    let ghost old_records = records@;
    let record = records.remove(idx);
    proof {
        lemma_exact_index_bounds(json_ids(old_records), identifier@);
        assert(json_ids(old_records)[idx as int] == text_field(record, "id"@));
    }
    let ghost old_record = record;
    let (stripped, old_comments) = remove_field(record, "comments");
    let mut comments = match old_comments {
        Some(JsonValue::Array(a)) => a,
        _ => Vec::new(),
    };
    let ghost before = comments@;
    assert(before == array_or_empty(old_record, "comments"@));
    assert(comments@.len() < u64::MAX);
    let number = comments.len() as u64 + 1;
    let comment = comment_object(number, identifier, author, text, created_at);
    comments.push(comment);
    let with_comments = put_field(stripped, "comments", JsonValue::Array(comments));
    let updated = put_field(with_comments, "updated_at", JsonValue::Text(owned(created_at)));
    proof {
        assert(comments@.drop_last() =~= before);
        assert(get_field(updated, "comments"@) == get_field(with_comments, "comments"@)) by {
            reveal_strlit("comments");
            reveal_strlit("updated_at");
            assert("comments"@.len() == 8 && "updated_at"@.len() == 10);
        }
        assert forall|k: Seq<char>| k != "comments"@ && k != "updated_at"@ implies #[trigger] get_field(updated, k) == get_field(old_record, k) by {
            assert(get_field(updated, k) == get_field(with_comments, k));
            assert(get_field(with_comments, k) == get_field(stripped, k));
        }
    }
    records.insert(idx, updated);
    proof {
        assert(records@ =~= old_records.update(idx as int, updated));
    }
    Ok(records)
}

/// The name-based UUID (version 5, URL namespace) of a name, as text.
pub uninterp spec fn uuid_v5_url_text(name: Seq<char>) -> Seq<char>;

/// `uuid::Uuid::new_v5` in the URL namespace over the UTF-8 bytes of the
/// name, shown through its `Display`. The UUID is a SHA-1 hash of the
/// namespace and the name, so the same name always gives the same text;
/// the text itself is named, not spelled out.
#[verifier::external_body]
fn uuid_v5_url(name: &str) -> (r: String)
    ensures
        r@ == uuid_v5_url_text(name@),
{
    uuid::Uuid::new_v5(&uuid::Uuid::NAMESPACE_URL, name.as_bytes()).to_string()
}

/// The UUID by which a Beads comment is addressed.
pub open spec fn comment_uuid_text(issue_id: Seq<char>, comment_id: Seq<char>) -> Seq<char> {
    uuid_v5_url_text("kanbus-comment:"@ + issue_id + ":"@ + comment_id)
}

fn beads_comment_uuid(issue_id: &str, comment_id: &str) -> (r: String)
    ensures
        r@ == comment_uuid_text(issue_id@, comment_id@),
{
    let key = join3("kanbus-comment:", issue_id, ":");
    let mut name = key;
    name.append(comment_id);
    uuid_v5_url(&name)
}

/// The identifier of a comment record: its "id" field, a string or the
/// text of a number.
pub open spec fn comment_id_text(c: JsonValue) -> Option<Seq<char>> {
    match get_field(c, "id"@) {
        Some(JsonValue::Text(s)) => Some(s@),
        Some(JsonValue::Number(n)) => Some(n@),
        _ => None,
    }
}

fn comment_id_value(c: &JsonValue) -> (r: Option<String>)
    ensures
        opt_text_view(r) == comment_id_text(*c),
{
    match field_of(c, "id") {
        Some(JsonValue::Text(s)) => Some(s.clone()),
        Some(JsonValue::Number(n)) => Some(n.clone()),
        _ => None,
    }
}

/// Positions, among the first `n` comments, of those whose UUID starts
/// with `normalized` (compared in ASCII lowercase).
pub open spec fn prefix_matches(comments: Seq<JsonValue>, issue_id: Seq<char>, normalized: Seq<char>, n: int) -> Seq<int>
    decreases n,
{
    if n <= 0 {
        seq![]
    } else {
        let r = prefix_matches(comments, issue_id, normalized, n - 1);
        match comment_id_text(comments[n - 1]) {
            Some(cid) => if has_prefix(ascii_lower(comment_uuid_text(issue_id, cid)), normalized) {
                r.push(n - 1)
            } else {
                r
            },
            None => r,
        }
    }
}

/// The first six characters of the UUIDs of the comments at the given
/// positions, joined by ", ".
pub open spec fn short_uuids(comments: Seq<JsonValue>, issue_id: Seq<char>, idx: Seq<int>) -> Seq<char>
    decreases idx.len(),
{
    if idx.len() == 0 {
        seq![]
    } else {
        let last = take_chars(comment_uuid_text(issue_id, comment_id_text(comments[idx.last()])->Some_0), 6);
        if idx.len() == 1 {
            last
        } else {
            short_uuids(comments, issue_id, idx.drop_last()) + ", "@ + last
        }
    }
}

/// The comment a prefix of its UUID names, or why none does.
pub open spec fn comment_match(comments: Seq<JsonValue>, issue_id: Seq<char>, prefix: Seq<char>) -> Result<int, Seq<char>> {
    let normalized = ascii_lower(trim_ws(prefix));
    let m = prefix_matches(comments, issue_id, normalized, comments.len() as int);
    if normalized.len() == 0 {
        Err("comment id is required"@)
    } else if m.len() == 0 {
        Err("comment not found"@)
    } else if m.len() == 1 {
        Ok(m[0])
    } else {
        Err("comment id prefix is ambiguous; matches: "@ + short_uuids(comments, issue_id, m))
    }
}

proof fn lemma_prefix_matches(comments: Seq<JsonValue>, issue_id: Seq<char>, normalized: Seq<char>, n: int)
    requires
        0 <= n <= comments.len(),
    ensures
        forall|k: int|
            0 <= k < prefix_matches(comments, issue_id, normalized, n).len() ==> 0 <= #[trigger] prefix_matches(
                comments,
                issue_id,
                normalized,
                n,
            )[k] < n && comment_id_text(comments[prefix_matches(comments, issue_id, normalized, n)[k]]) is Some,
    decreases n,
{
    if n > 0 {
        lemma_prefix_matches(comments, issue_id, normalized, n - 1);
    }
}

fn first_chars(s: &str, n: usize) -> (r: String)
    ensures
        r@ == take_chars(s@, n as nat),
{
    if s.unicode_len() <= n {
        owned(s)
    } else {
        substring(s, 0, n)
    }
}

/// Find the comment whose UUID starts with `prefix` (trimmed, in ASCII
/// lowercase).
pub fn match_comment_prefix(issue_id: &str, comments: &Vec<JsonValue>, prefix: &str) -> (r: Result<usize, KanbusError>)
    ensures
        match comment_match(comments@, issue_id@, prefix@) {
            Ok(i) => r matches Ok(k) && k as int == i,
            Err(m) => r matches Err(e) && e is IssueOperation && e->IssueOperation_0@ == m,
        },
{
    let normalized = to_ascii_lowercase(&trim(prefix));
    if normalized.unicode_len() == 0 {
        return Err(issue_error("comment id is required"));
    }
    let ghost nz = normalized@;
    let mut found: Vec<usize> = Vec::new();
    let mut i: usize = 0;
    while i < comments.len()
        invariant
            i <= comments@.len(),
            nz == normalized@,
            found@.map_values(|x: usize| x as int) == prefix_matches(comments@, issue_id@, nz, i as int),
        decreases comments@.len() - i,
    {
        let ghost before = found@;
        if let Some(cid) = comment_id_value(&comments[i]) {
            let uuid = beads_comment_uuid(issue_id, &cid);
            if starts_with(&to_ascii_lowercase(&uuid), &normalized) {
                found.push(i);
                assert(found@.map_values(|x: usize| x as int) =~= before.map_values(|x: usize| x as int).push(i as int));
            }
        }
        i += 1;
    }
    let ghost m = prefix_matches(comments@, issue_id@, nz, comments@.len() as int);
    proof {
        lemma_prefix_matches(comments@, issue_id@, nz, comments@.len() as int);
    }
    if found.len() == 0 {
        return Err(issue_error("comment not found"));
    }
    if found.len() == 1 {
        assert(m[0] == found@[0] as int);
        return Ok(found[0]);
    }
    let mut joined = String::new();
    let mut k: usize = 0;
    while k < found.len()
        invariant
            k <= found@.len(),
            m == found@.map_values(|x: usize| x as int),
            forall|q: int|
                0 <= q < m.len() ==> 0 <= #[trigger] m[q] < comments@.len() && comment_id_text(comments@[m[q]]) is Some,
            joined@ == short_uuids(comments@, issue_id@, m.subrange(0, k as int)),
        decreases found@.len() - k,
    {
        assert(m.subrange(0, k + 1).drop_last() =~= m.subrange(0, k as int));
        assert(m[k as int] == found@[k as int] as int);
        let cid = match comment_id_value(&comments[found[k]]) {
            Some(c) => c,
            None => {
                assert(comment_id_text(comments@[m[k as int]]) is Some);
                String::new()
            },
        };
        let uuid = beads_comment_uuid(issue_id, &cid);
        let short = first_chars(&uuid, 6);
        if k > 0 {
            joined.append(", ");
        }
        joined.append(&short);
        proof {
            if k == 0 {
                assert(joined@ =~= short_uuids(comments@, issue_id@, m.subrange(0, 1)));
            }
        }
        k += 1;
    }
    assert(m.subrange(0, m.len() as int) =~= m);
    let mut message = owned("comment id prefix is ambiguous; matches: ");
    message.append(&joined);
    Err(KanbusError::IssueOperation(message))
}

/// Whether `new` is the record `old` with the comments `comments` and the
/// update time `updated_at`, and otherwise the same.
pub open spec fn comments_replaced(new: JsonValue, old: JsonValue, comments: Seq<JsonValue>, updated_at: Seq<char>) -> bool {
    &&& new is Object
    &&& same_fields_except2(new, old, "comments"@, "updated_at"@)
    &&& text_field(new, "updated_at"@) == Some(updated_at)
    &&& array_field(new, "comments"@) == Some(comments)
}

/// Whether `new` is the comment `old` with its text replaced (a comment that
/// is no object stays as it is).
pub open spec fn text_replaced(new: JsonValue, old: JsonValue, text: Seq<char>) -> bool {
    if old is Object {
        new is Object && same_fields_except(new, old, "text"@) && text_field(new, "text"@) == Some(text)
    } else {
        new == old
    }
}

fn with_comments(record: JsonValue, comments: Vec<JsonValue>, updated_at: &str) -> (r: JsonValue)
    requires
        record is Object,
    ensures
        r is Object,
        same_fields_except2(r, record, "comments"@, "updated_at"@),
        text_field(r, "updated_at"@) == Some(updated_at@),
        array_field(r, "comments"@) == Some(comments@),
{
    let ghost cs = comments@;
    let a = put_field(record, "comments", JsonValue::Array(comments));
    let b = put_field(a, "updated_at", JsonValue::Text(owned(updated_at)));
    proof {
        assert(get_field(b, "comments"@) == get_field(a, "comments"@)) by {
            reveal_strlit("comments");
            reveal_strlit("updated_at");
            assert("comments"@.len() == 8 && "updated_at"@.len() == 10);
        }
        assert forall|k: Seq<char>| k != "comments"@ && k != "updated_at"@ implies #[trigger] get_field(b, k) == get_field(record, k) by {
            assert(get_field(b, k) == get_field(a, k));
        }
    }
    b
}

/// Where a comment operation on the record `identifier` applies: the
/// record's position and its comments, or the error message.
pub open spec fn comment_target(records: Seq<JsonValue>, identifier: Seq<char>, prefix: Seq<char>) -> Result<(int, int), Seq<char>> {
    let e = exact_index(json_ids(records), identifier);
    if e < 0 {
        Err("not found"@)
    } else {
        match array_field(records[e], "comments"@) {
            None => Err("comment not found"@),
            Some(cs) => match comment_match(cs, identifier, prefix) {
                Err(m) => Err(m),
                Ok(j) => Ok((e, j)),
            },
        }
    }
}

proof fn lemma_comment_match_bounds(cs: Seq<JsonValue>, issue_id: Seq<char>, prefix: Seq<char>)
    ensures
        comment_match(cs, issue_id, prefix) matches Ok(x) ==> 0 <= x < cs.len(),
{
    let normalized = ascii_lower(trim_ws(prefix));
    let m = prefix_matches(cs, issue_id, normalized, cs.len() as int);
    lemma_prefix_matches(cs, issue_id, normalized, cs.len() as int);
    if m.len() == 1 {
        assert(0 <= m[0] < cs.len());
    }
}

/// Whether `rest` is `all` without its element `i`.
pub open spec fn rest_is_removed(rest: Seq<JsonValue>, all: Seq<JsonValue>, i: int) -> bool {
    rest == all.remove(i)
}

/// Take out the record `identifier` and its comments, and find the comment
/// a prefix names.
fn locate_comment(records: Vec<JsonValue>, identifier: &str, prefix: &str) -> (r: Result<(Vec<JsonValue>, usize, JsonValue, Vec<JsonValue>, usize), KanbusError>)
    ensures
        match comment_target(records@, identifier@, prefix@) {
            Err(m) => r matches Err(e) && e is IssueOperation && e->IssueOperation_0@ == m,
            Ok((e, j)) => r matches Ok((rest, idx, stripped, cs, jdx)) && idx == e && jdx == j && rest@ == records@.remove(e)
                && stripped is Object && get_field(stripped, "comments"@) is None && same_fields_except(
                stripped,
                records@[e],
                "comments"@,
            ) && array_field(records@[e], "comments"@) == Some(cs@) && j < cs@.len() && 0 <= e < records@.len(),
        },
{
    let ids = record_id_list(&records);
    let idx = match exact_record_index(&ids, identifier) {
        Some(i) => i,
        None => return Err(issue_error("not found")),
    };
    let mut records = records;
    let ghost old_records = records@;
    let record = records.remove(idx);
    proof {
        lemma_exact_index_bounds(json_ids(old_records), identifier@);
        assert(json_ids(old_records)[idx as int] == text_field(record, "id"@));
    }
    assert(record == old_records[idx as int]);
    assert(rest_is_removed(records@, old_records, idx as int));
    let ghost old_record = record;
    let (stripped, old_comments) = remove_field(record, "comments");
    let cs = match old_comments {
        Some(JsonValue::Array(a)) => a,
        _ => return Err(issue_error("comment not found")),
    };
    assert(array_field(old_record, "comments"@) == Some(cs@));
    proof {
        lemma_comment_match_bounds(cs@, identifier@, prefix@);
    }
    let j = match match_comment_prefix(identifier, &cs, prefix) {
        Ok(j) => j,
        Err(e) => return Err(e),
    };
    Ok((records, idx, stripped, cs, j))
}

/// Whether `new` is the record `old` with the text of its comment `j`
/// replaced and the update time set.
pub open spec fn comment_text_updated(new: JsonValue, old: JsonValue, j: int, text: Seq<char>, updated_at: Seq<char>) -> bool {
    let before = array_or_empty(old, "comments"@);
    match array_field(new, "comments"@) {
        Some(a) => {
            &&& a.len() == before.len()
            &&& forall|i: int| 0 <= i < a.len() && i != j ==> a[i] == before[i]
            &&& text_replaced(a[j], before[j], text)
            &&& comments_replaced(new, old, a, updated_at)
        },
        None => false,
    }
}

/// Replace the text of the comment of record `identifier` whose UUID
/// starts with `prefix`; the record's update time becomes `updated_at`.
pub fn update_beads_comment(
    records: Vec<JsonValue>,
    identifier: &str,
    prefix: &str,
    text: &str,
    updated_at: &str,
) -> (r: Result<Vec<JsonValue>, KanbusError>)
    ensures
        match comment_target(records@, identifier@, prefix@) {
            Err(m) => r matches Err(e) && e is IssueOperation && e->IssueOperation_0@ == m,
            Ok((e, j)) => r matches Ok(out) && out@.len() == records@.len() && (forall|i: int|
                0 <= i < records@.len() && i != e ==> out@[i] == records@[i]) && comment_text_updated(
                out@[e],
                records@[e],
                j,
                text@,
                updated_at@,
            ),
        },
{
    let ghost old_records = records@;
    let (mut rest, idx, stripped, mut cs, j) = match locate_comment(records, identifier, prefix) {
        Ok(t) => t,
        Err(e) => return Err(e),
    };
    let ghost old_cs = cs@;
    let c = cs.remove(j);
    let c2 = match c {
        JsonValue::Object(_) => put_field(c, "text", JsonValue::Text(owned(text))),
        other => other,
    };
    cs.insert(j, c2);
    assert(cs@ =~= old_cs.update(j as int, c2));
    let ghost new_cs = cs@;
    let record = with_comments(stripped, cs, updated_at);
    proof {
        assert forall|k: Seq<char>| k != "comments"@ && k != "updated_at"@ implies #[trigger] get_field(record, k) == get_field(old_records[idx as int], k) by {
            assert(get_field(record, k) == get_field(stripped, k));
        }
    }
    rest.insert(idx, record);
    assert(rest@ =~= old_records.update(idx as int, record));
    Ok(rest)
}

/// Delete the comment of record `identifier` whose UUID starts with
/// `prefix`; the record's update time becomes `updated_at`.
pub fn delete_beads_comment(
    records: Vec<JsonValue>,
    identifier: &str,
    prefix: &str,
    updated_at: &str,
) -> (r: Result<Vec<JsonValue>, KanbusError>)
    ensures
        match comment_target(records@, identifier@, prefix@) {
            Err(m) => r matches Err(e) && e is IssueOperation && e->IssueOperation_0@ == m,
            Ok((e, j)) => r matches Ok(out) && out@.len() == records@.len() && (forall|i: int|
                0 <= i < records@.len() && i != e ==> out@[i] == records@[i]) && comments_replaced(
                out@[e],
                records@[e],
                array_or_empty(records@[e], "comments"@).remove(j),
                updated_at@,
            ),
        },
{
    let ghost old_records = records@;
    let (mut rest, idx, stripped, mut cs, j) = match locate_comment(records, identifier, prefix) {
        Ok(t) => t,
        Err(e) => return Err(e),
    };
    let _removed = cs.remove(j);
    let record = with_comments(stripped, cs, updated_at);
    proof {
        assert forall|k: Seq<char>| k != "comments"@ && k != "updated_at"@ implies #[trigger] get_field(record, k) == get_field(old_records[idx as int], k) by {
            assert(get_field(record, k) == get_field(stripped, k));
        }
    }
    rest.insert(idx, record);
    assert(rest@ =~= old_records.update(idx as int, record));
    Ok(rest)
}

/// Whether `new` is the record `old` with the array `items` under `key`
/// and the update time `updated_at`, and otherwise the same.
pub open spec fn array_replaced(new: JsonValue, old: JsonValue, key: Seq<char>, items: Seq<JsonValue>, updated_at: Seq<char>) -> bool {
    &&& new is Object
    &&& same_fields_except2(new, old, key, "updated_at"@)
    &&& text_field(new, "updated_at"@) == Some(updated_at)
    &&& array_field(new, key) == Some(items)
}

fn with_array(record: JsonValue, key: &str, items: Vec<JsonValue>, updated_at: &str) -> (r: JsonValue)
    requires
        record is Object,
        key@ != "updated_at"@,
    ensures
        array_replaced(r, record, key@, items@, updated_at@),
{
    let ghost xs = items@;
    let a = put_field(record, key, JsonValue::Array(items));
    let b = put_field(a, "updated_at", JsonValue::Text(owned(updated_at)));
    proof {
        assert(get_field(b, key@) == get_field(a, key@));
        assert forall|k: Seq<char>| k != key@ && k != "updated_at"@ implies #[trigger] get_field(b, k) == get_field(record, k) by {
            assert(get_field(b, k) == get_field(a, k));
        }
    }
    b
}

/// The identifier a target resolves to among the records, or why it does
/// not.
pub open spec fn resolved_id(records: Seq<JsonValue>, target: Seq<char>) -> Result<Seq<char>, Seq<char>> {
    match beads_resolution(json_ids(records), target) {
        Ok(i) => Ok(json_ids(records)[i]->Some_0),
        Err(m) => Err(m),
    }
}

fn resolve_beads_identifier(ids: &Vec<Option<String>>, target: &str) -> (r: Result<String, KanbusError>)
    ensures
        match beads_resolution(record_ids_view(ids@), target@) {
            Ok(i) => r matches Ok(t) && Some(t@) == record_ids_view(ids@)[i],
            Err(m) => r matches Err(e) && e is IssueOperation && e->IssueOperation_0@ == m,
        },
{
    proof {
        lemma_beads_resolution(record_ids_view(ids@), target@);
    }
    match resolve_beads_index(ids, target) {
        Ok(i) => match &ids[i] {
            Some(t) => Ok(t.clone()),
            None => Err(issue_error("not found")),
        },
        Err(e) => Err(e),
    }
}

/// Whether a dependency entry names the target and type.
pub open spec fn is_dependency_on(entry: JsonValue, target: Seq<char>, dependency_type: Seq<char>) -> bool {
    text_field(entry, "depends_on_id"@) == Some(target) && text_field(entry, "type"@) == Some(dependency_type)
}

/// Whether `c` is the dependency record with the given fields.
pub open spec fn is_dependency_record(
    c: JsonValue,
    issue_id: Seq<char>,
    target: Seq<char>,
    dependency_type: Seq<char>,
    created_at: Seq<char>,
    created_by: Seq<char>,
) -> bool {
    &&& c is Object
    &&& text_field(c, "issue_id"@) == Some(issue_id)
    &&& text_field(c, "depends_on_id"@) == Some(target)
    &&& text_field(c, "type"@) == Some(dependency_type)
    &&& text_field(c, "created_at"@) == Some(created_at)
    &&& text_field(c, "created_by"@) == Some(created_by)
    &&& only_fields(c, seq!["issue_id"@, "depends_on_id"@, "type"@, "created_at"@, "created_by"@])
}

fn dependency_object(issue_id: &str, target: &str, dependency_type: &str, created_at: &str, created_by: &str) -> (c: JsonValue)
    ensures
        is_dependency_record(c, issue_id@, target@, dependency_type@, created_at@, created_by@),
{
    let empty = JsonValue::Object(Vec::new());
    assert(forall|k: Seq<char>| #[trigger] get_field(empty, k) is None);
    let c1 = put_field(empty, "issue_id", JsonValue::Text(owned(issue_id)));
    let c2 = put_field(c1, "depends_on_id", JsonValue::Text(owned(target)));
    let c3 = put_field(c2, "type", JsonValue::Text(owned(dependency_type)));
    let c4 = put_field(c3, "created_at", JsonValue::Text(owned(created_at)));
    let c5 = put_field(c4, "created_by", JsonValue::Text(owned(created_by)));
    proof {
        let keys = seq!["issue_id"@, "depends_on_id"@, "type"@, "created_at"@, "created_by"@];
        assert forall|k: Seq<char>| #[trigger] get_field(c5, k) is Some implies keys.contains(k) by {
            if !keys.contains(k) {
                assert(k != keys[0] && k != keys[1] && k != keys[2] && k != keys[3] && k != keys[4]);
                assert(get_field(c5, k) == get_field(c4, k));
                assert(get_field(c4, k) == get_field(c3, k));
                assert(get_field(c3, k) == get_field(c2, k));
                assert(get_field(c2, k) == get_field(c1, k));
                assert(get_field(c1, k) == get_field(empty, k));
            }
        }
        reveal_strlit("issue_id");
        reveal_strlit("depends_on_id");
        reveal_strlit("type");
        reveal_strlit("created_at");
        reveal_strlit("created_by");
        assert("issue_id"@.len() == 8 && "depends_on_id"@.len() == 13 && "type"@.len() == 4);
        assert("created_at"@[8] == 'a' && "created_by"@[8] == 'b');
        assert(get_field(c5, "issue_id"@) == get_field(c4, "issue_id"@));
        assert(get_field(c4, "issue_id"@) == get_field(c3, "issue_id"@));
        assert(get_field(c3, "issue_id"@) == get_field(c2, "issue_id"@));
        assert(get_field(c2, "issue_id"@) == get_field(c1, "issue_id"@));
        assert(get_field(c5, "depends_on_id"@) == get_field(c4, "depends_on_id"@));
        assert(get_field(c4, "depends_on_id"@) == get_field(c3, "depends_on_id"@));
        assert(get_field(c3, "depends_on_id"@) == get_field(c2, "depends_on_id"@));
        assert(get_field(c5, "type"@) == get_field(c4, "type"@));
        assert(get_field(c4, "type"@) == get_field(c3, "type"@));
        assert(get_field(c5, "created_at"@) == get_field(c4, "created_at"@));
    }
    c5
}

fn has_dependency_entry(entries: &Vec<JsonValue>, target: &str, dependency_type: &str) -> (r: bool)
    ensures
        r == exists|i: int| 0 <= i < entries@.len() && is_dependency_on(#[trigger] entries@[i], target@, dependency_type@),
{
    let mut i: usize = 0;
    while i < entries.len()
        invariant
            i <= entries@.len(),
            forall|j: int| 0 <= j < i ==> !is_dependency_on(#[trigger] entries@[j], target@, dependency_type@),
        decreases entries@.len() - i,
    {
        let hit = match (text_of(&entries[i], "depends_on_id"), text_of(&entries[i], "type")) {
            (Some(t), Some(ty)) => equals(t, target) && equals(ty, dependency_type),
            _ => false,
        };
        if hit {
            return true;
        }
        i += 1;
    }
    false
}

/// What adding a dependency to the Beads records gives: an error message,
/// nothing to write (the link is there already), or the source record's
/// position and the resolved target.
pub open spec fn dependency_addition(
    records: Seq<JsonValue>,
    identifier: Seq<char>,
    target: Seq<char>,
    dependency_type: Seq<char>,
) -> Result<Option<(int, Seq<char>)>, Seq<char>> {
    let ids = json_ids(records);
    match resolved_id(records, target) {
        Err(m) => Err(m),
        Ok(tid) => match beads_resolution(ids, identifier) {
            Err(m) => Err(m),
            Ok(si) => match beads_resolution(ids, tid) {
                Err(m) => Err(m),
                Ok(ti) => if dependency_type == "blocked-by"@ && text_field(records[si], "parent"@) == Some(tid) {
                    Err("circular dependency: cannot block on parent"@)
                } else if dependency_type == "blocked-by"@ && text_field(records[ti], "parent"@) == Some(identifier) {
                    Err("circular dependency: cannot block on child"@)
                } else if get_field(records[si], "dependencies"@) is Some && array_field(records[si], "dependencies"@) is None {
                    Err("invalid dependency list"@)
                } else if exists|i: int|
                    0 <= i < array_or_empty(records[si], "dependencies"@).len() && is_dependency_on(
                        #[trigger] array_or_empty(records[si], "dependencies"@)[i],
                        tid,
                        dependency_type,
                    ) {
                    Ok(None)
                } else {
                    Ok(Some((si, tid)))
                },
            },
        },
    }
}

/// Add a dependency of record `identifier` on `target` (each resolved from
/// a full or abbreviated identifier). A blocked-by link may not mirror a
/// parent-child one. Nothing comes back when the link exists already;
/// otherwise the records with the link appended and the source's update
/// time set to `updated_at`.
pub fn add_beads_dependency(
    records: Vec<JsonValue>,
    identifier: &str,
    target: &str,
    dependency_type: &str,
    updated_at: &str,
    created_by: &str,
) -> (r: Result<Option<Vec<JsonValue>>, KanbusError>)
    ensures
        match dependency_addition(records@, identifier@, target@, dependency_type@) {
            Err(m) => r matches Err(e) && e is IssueOperation && e->IssueOperation_0@ == m,
            Ok(None) => r matches Ok(o) && o is None,
            Ok(Some((si, tid))) => r matches Ok(o) && o matches Some(out) && out@.len() == records@.len() && (forall|i: int|
                0 <= i < records@.len() && i != si ==> out@[i] == records@[i]) && array_field(out@[si], "dependencies"@)
                is Some && array_replaced(
                out@[si],
                records@[si],
                "dependencies"@,
                array_field(out@[si], "dependencies"@)->Some_0,
                updated_at@,
            ) && array_field(out@[si], "dependencies"@)->Some_0.drop_last() == array_or_empty(records@[si], "dependencies"@)
                && array_field(out@[si], "dependencies"@)->Some_0.len() == array_or_empty(records@[si], "dependencies"@).len() + 1
                && is_dependency_record(
                array_field(out@[si], "dependencies"@)->Some_0.last(),
                identifier@,
                tid,
                dependency_type@,
                updated_at@,
                created_by@,
            ),
        },
{
    let ghost old_records = records@;
    let ids = record_id_list(&records);
    proof {
        lemma_beads_resolution(json_ids(records@), target@);
        lemma_beads_resolution(json_ids(records@), identifier@);
    }
    let target_id = match resolve_beads_identifier(&ids, target) {
        Ok(t) => t,
        Err(e) => return Err(e),
    };
    let source_index = match resolve_beads_index(&ids, identifier) {
        Ok(i) => i,
        Err(e) => return Err(e),
    };
    proof {
        lemma_beads_resolution(json_ids(records@), target_id@);
    }
    let target_index = match resolve_beads_index(&ids, &target_id) {
        Ok(i) => i,
        Err(e) => return Err(e),
    };
    proof {
        reveal_strlit("blocked-by");
    }
    if equals(dependency_type, "blocked-by") {
        let source_parent_is_target = match text_of(&records[source_index], "parent") {
            Some(p) => equals(p, &target_id),
            None => false,
        };
        if source_parent_is_target {
            return Err(issue_error("circular dependency: cannot block on parent"));
        }
        let target_parent_is_source = match text_of(&records[target_index], "parent") {
            Some(p) => equals(p, identifier),
            None => false,
        };
        if target_parent_is_source {
            return Err(issue_error("circular dependency: cannot block on child"));
        }
    }
    let mut records = records;
    let record = records.remove(source_index);
    let ghost old_record = record;
    proof {
        assert(json_ids(old_records)[source_index as int] == text_field(old_record, "id"@));
    }
    let (stripped, old_deps) = remove_field(record, "dependencies");
    let mut deps = match old_deps {
        Some(JsonValue::Array(a)) => a,
        Some(_) => return Err(issue_error("invalid dependency list")),
        None => Vec::new(),
    };
    let ghost before = deps@;
    assert(before == array_or_empty(old_record, "dependencies"@));
    if has_dependency_entry(&deps, &target_id, dependency_type) {
        return Ok(None);
    }
    deps.push(dependency_object(identifier, &target_id, dependency_type, updated_at, created_by));
    proof {
        reveal_strlit("dependencies");
        reveal_strlit("updated_at");
        assert("dependencies"@.len() == 12 && "updated_at"@.len() == 10);
    }
    let updated = with_array(stripped, "dependencies", deps, updated_at);
    proof {
        assert forall|k: Seq<char>| k != "dependencies"@ && k != "updated_at"@ implies #[trigger] get_field(updated, k) == get_field(old_record, k) by {
            assert(get_field(updated, k) == get_field(stripped, k));
        }
        assert(array_field(updated, "dependencies"@)->Some_0.drop_last() =~= before);
    }
    records.insert(source_index, updated);
    assert(records@ =~= old_records.update(source_index as int, updated));
    Ok(Some(records))
}

/// The dependency entries that do not name the target and type.
pub open spec fn kept_dependencies(deps: Seq<JsonValue>, target: Seq<char>, dependency_type: Seq<char>) -> Seq<JsonValue>
    decreases deps.len(),
{
    if deps.len() == 0 {
        seq![]
    } else {
        let r = kept_dependencies(deps.drop_last(), target, dependency_type);
        if is_dependency_on(deps.last(), target, dependency_type) {
            r
        } else {
            r.push(deps.last())
        }
    }
}

/// The dependency entries that do not depend on `id`.
pub open spec fn kept_not_on(deps: Seq<JsonValue>, id: Seq<char>) -> Seq<JsonValue>
    decreases deps.len(),
{
    if deps.len() == 0 {
        seq![]
    } else {
        let r = kept_not_on(deps.drop_last(), id);
        if text_field(deps.last(), "depends_on_id"@) == Some(id) {
            r
        } else {
            r.push(deps.last())
        }
    }
}

fn filter_dependencies(deps: Vec<JsonValue>, target: &str, dependency_type: Option<&str>) -> (r: Vec<JsonValue>)
    ensures
        r@ == match dependency_type {
            Some(t) => kept_dependencies(deps@, target@, t@),
            None => kept_not_on(deps@, target@),
        },
{
    let ghost all = deps@;
    let mut rest = deps;
    let mut kept: Vec<JsonValue> = Vec::new();
    let n = rest.len();
    let mut i: usize = 0;
    assert(all.subrange(0, 0) =~= Seq::<JsonValue>::empty());
    while i < n
        invariant
            n == all.len(),
            i <= n,
            rest@ == all.subrange(i as int, n as int),
            kept@ == match dependency_type {
                Some(t) => kept_dependencies(all.subrange(0, i as int), target@, t@),
                None => kept_not_on(all.subrange(0, i as int), target@),
            },
        decreases n - i,
    {
        assert(all.subrange(0, i + 1).drop_last() =~= all.subrange(0, i as int));
        let entry = rest.remove(0);
        assert(rest@ =~= all.subrange(i + 1, n as int));
        let drop = match dependency_type {
            Some(t) => match (text_of(&entry, "depends_on_id"), text_of(&entry, "type")) {
                (Some(d), Some(ty)) => equals(d, target) && equals(ty, t),
                _ => false,
            },
            None => match text_of(&entry, "depends_on_id") {
                Some(d) => equals(d, target),
                None => false,
            },
        };
        if !drop {
            kept.push(entry);
        }
        i += 1;
    }
    assert(all.subrange(0, n as int) =~= all);
    kept
}

/// Whether `new` is the record `old` after its dependency list was
/// filtered to `kept` and its update time set: an empty list is dropped.
pub open spec fn dependencies_filtered(new: JsonValue, old: JsonValue, kept: Seq<JsonValue>, updated_at: Seq<char>) -> bool {
    if kept.len() == 0 {
        &&& new is Object
        &&& same_fields_except2(new, old, "dependencies"@, "updated_at"@)
        &&& text_field(new, "updated_at"@) == Some(updated_at)
        &&& get_field(new, "dependencies"@) is None
    } else {
        array_replaced(new, old, "dependencies"@, kept, updated_at)
    }
}

/// Remove the dependency of record `identifier` on `target` of the given
/// type (each resolved from a full or abbreviated identifier). A record
/// with a dependency list gets the filtered list (dropped when empty) and
/// the update time `updated_at`.
pub fn remove_beads_dependency(
    records: Vec<JsonValue>,
    identifier: &str,
    target: &str,
    dependency_type: &str,
    updated_at: &str,
) -> (r: Result<Vec<JsonValue>, KanbusError>)
    ensures
        match resolved_id(records@, target@) {
            Err(m) => r matches Err(e) && e is IssueOperation && e->IssueOperation_0@ == m,
            Ok(tid) => match beads_resolution(json_ids(records@), identifier@) {
                Err(m) => r matches Err(e) && e is IssueOperation && e->IssueOperation_0@ == m,
                Ok(si) => r matches Ok(out) && out@.len() == records@.len() && (forall|i: int|
                    0 <= i < records@.len() && i != si ==> out@[i] == records@[i]) && match array_field(
                    records@[si],
                    "dependencies"@,
                ) {
                    None => out@[si] == records@[si],
                    Some(deps) => dependencies_filtered(
                        out@[si],
                        records@[si],
                        kept_dependencies(deps, tid, dependency_type@),
                        updated_at@,
                    ),
                },
            },
        },
{
    let ghost old_records = records@;
    let ids = record_id_list(&records);
    proof {
        lemma_beads_resolution(json_ids(records@), target@);
        lemma_beads_resolution(json_ids(records@), identifier@);
    }
    let target_id = match resolve_beads_identifier(&ids, target) {
        Ok(t) => t,
        Err(e) => return Err(e),
    };
    let source_index = match resolve_beads_index(&ids, identifier) {
        Ok(i) => i,
        Err(e) => return Err(e),
    };
    let mut records = records;
    let record = records.remove(source_index);
    let ghost old_record = record;
    proof {
        assert(json_ids(old_records)[source_index as int] == text_field(old_record, "id"@));
    }
    let has_list = match field_of(&record, "dependencies") {
        Some(JsonValue::Array(_)) => true,
        _ => false,
    };
    if !has_list {
        records.insert(source_index, record);
        assert(records@ =~= old_records);
        return Ok(records);
    }
    let (stripped, old_deps) = remove_field(record, "dependencies");
    let deps = match old_deps {
        Some(JsonValue::Array(a)) => a,
        _ => Vec::new(),
    };
    let kept = filter_dependencies(deps, &target_id, Some(dependency_type));
    proof {
        reveal_strlit("dependencies");
        reveal_strlit("updated_at");
        assert("dependencies"@.len() == 12 && "updated_at"@.len() == 10);
    }
    let updated = if kept.len() == 0 {
        let u = put_field(stripped, "updated_at", JsonValue::Text(owned(updated_at)));
        proof {
            assert(get_field(u, "dependencies"@) == get_field(stripped, "dependencies"@));
            assert forall|k: Seq<char>| k != "dependencies"@ && k != "updated_at"@ implies #[trigger] get_field(u, k) == get_field(old_record, k) by {
                assert(get_field(u, k) == get_field(stripped, k));
            }
        }
        u
    } else {
        let u = with_array(stripped, "dependencies", kept, updated_at);
        proof {
            assert forall|k: Seq<char>| k != "dependencies"@ && k != "updated_at"@ implies #[trigger] get_field(u, k) == get_field(old_record, k) by {
                assert(get_field(u, k) == get_field(stripped, k));
            }
        }
        u
    };
    records.insert(source_index, updated);
    assert(records@ =~= old_records.update(source_index as int, updated));
    Ok(records)
}

/// The records whose identifier is not `id`.
pub open spec fn surviving(records: Seq<JsonValue>, id: Seq<char>) -> Seq<JsonValue>
    decreases records.len(),
{
    if records.len() == 0 {
        seq![]
    } else {
        let r = surviving(records.drop_last(), id);
        if text_field(records.last(), "id"@) == Some(id) {
            r
        } else {
            r.push(records.last())
        }
    }
}

/// Whether `new` is the record `old` without references to the deleted
/// issue `id`: a parent field naming it is dropped, and dependencies on it
/// are filtered out (an emptied list is dropped).
pub open spec fn cleaned(new: JsonValue, old: JsonValue, id: Seq<char>) -> bool {
    if old is Object {
        &&& new is Object
        &&& same_fields_except2(new, old, "parent"@, "dependencies"@)
        &&& if text_field(old, "parent"@) == Some(id) {
            get_field(new, "parent"@) is None
        } else {
            get_field(new, "parent"@) == get_field(old, "parent"@)
        }
        &&& match array_field(old, "dependencies"@) {
            Some(d) => if kept_not_on(d, id).len() == 0 {
                get_field(new, "dependencies"@) is None
            } else {
                array_field(new, "dependencies"@) == Some(kept_not_on(d, id))
            },
            None => get_field(new, "dependencies"@) == get_field(old, "dependencies"@),
        }
    } else {
        new == old
    }
}

fn clean_record(record: JsonValue, id: &str) -> (r: JsonValue)
    ensures
        cleaned(r, record, id@),
{
    if !(match record {
        JsonValue::Object(_) => true,
        _ => false,
    }) {
        return record;
    }
    let ghost old = record;
    proof {
        reveal_strlit("parent");
        reveal_strlit("dependencies");
        assert("parent"@.len() == 6 && "dependencies"@.len() == 12);
    }
    let parent_is_id = match text_of(&record, "parent") {
        Some(p) => equals(p, id),
        None => false,
    };
    let step = if parent_is_id {
        let (without, _) = remove_field(record, "parent");
        without
    } else {
        record
    };
    assert(same_fields_except(step, old, "parent"@));
    let has_list = match field_of(&step, "dependencies") {
        Some(JsonValue::Array(_)) => true,
        _ => false,
    };
    if !has_list {
        return step;
    }
    let (stripped, old_deps) = remove_field(step, "dependencies");
    let deps = match old_deps {
        Some(JsonValue::Array(a)) => a,
        _ => Vec::new(),
    };
    let kept = filter_dependencies(deps, id, None);
    if kept.len() == 0 {
        proof {
            assert forall|k: Seq<char>| k != "parent"@ && k != "dependencies"@ implies #[trigger] get_field(stripped, k) == get_field(old, k) by {
                assert(get_field(stripped, k) == get_field(step, k));
            }
            assert(get_field(stripped, "parent"@) == get_field(step, "parent"@));
        }
        return stripped;
    }
    let ghost kept_v = kept@;
    let r = put_field(stripped, "dependencies", JsonValue::Array(kept));
    proof {
        assert forall|k: Seq<char>| k != "parent"@ && k != "dependencies"@ implies #[trigger] get_field(r, k) == get_field(old, k) by {
            assert(get_field(r, k) == get_field(stripped, k));
            assert(get_field(stripped, k) == get_field(step, k));
        }
        assert(get_field(r, "parent"@) == get_field(stripped, "parent"@));
        assert(get_field(stripped, "parent"@) == get_field(step, "parent"@));
    }
    r
}

/// Delete the Beads record whose identifier is exactly `identifier`, and
/// clear the references other records make to it.
pub fn delete_beads_issue(records: Vec<JsonValue>, identifier: &str) -> (r: Result<Vec<JsonValue>, KanbusError>)
    ensures
        if surviving(records@, identifier@).len() == records@.len() {
            r matches Err(e) && e is IssueOperation && e->IssueOperation_0@ == "not found"@
        } else {
            r matches Ok(out) && out@.len() == surviving(records@, identifier@).len() && forall|j: int|
                0 <= j < out@.len() ==> cleaned(#[trigger] out@[j], surviving(records@, identifier@)[j], identifier@)
        },
{
    let ghost all = records@;
    let n = records.len();
    let mut rest = records;
    let mut out: Vec<JsonValue> = Vec::new();
    let mut i: usize = 0;
    assert(all.subrange(0, 0) =~= Seq::<JsonValue>::empty());
    while i < n
        invariant
            n == all.len(),
            i <= n,
            rest@ == all.subrange(i as int, n as int),
            out@.len() == surviving(all.subrange(0, i as int), identifier@).len(),
            surviving(all.subrange(0, i as int), identifier@).len() <= i,
            forall|j: int| 0 <= j < out@.len() ==> cleaned(#[trigger] out@[j], surviving(all.subrange(0, i as int), identifier@)[j], identifier@),
        decreases n - i,
    {
        assert(all.subrange(0, i + 1).drop_last() =~= all.subrange(0, i as int));
        let record = rest.remove(0);
        assert(rest@ =~= all.subrange(i + 1, n as int));
        let is_deleted = match text_of(&record, "id") {
            Some(t) => equals(t, identifier),
            None => false,
        };
        if !is_deleted {
            let ghost before = out@;
            let c = clean_record(record, identifier);
            out.push(c);
            proof {
                assert forall|j: int| 0 <= j < out@.len() implies cleaned(#[trigger] out@[j], surviving(all.subrange(0, i + 1), identifier@)[j], identifier@) by {
                    if j < before.len() {
                        assert(out@[j] == before[j]);
                    }
                }
            }
        }
        i += 1;
    }
    assert(all.subrange(0, n as int) =~= all);
    if out.len() == n {
        return Err(issue_error("not found"));
    }
    Ok(out)
}

/// The strings among JSON values, in order.
pub open spec fn string_items(items: Seq<JsonValue>) -> Seq<Seq<char>>
    decreases items.len(),
{
    if items.len() == 0 {
        seq![]
    } else {
        let r = string_items(items.drop_last());
        match items.last() {
            JsonValue::Text(t) => r.push(t@),
            _ => r,
        }
    }
}

/// Whether the values are the given strings.
pub open spec fn are_texts(items: Seq<JsonValue>, texts: Seq<Seq<char>>) -> bool {
    items.len() == texts.len() && forall|i: int| 0 <= i < items.len() ==> (#[trigger] items[i] matches JsonValue::Text(t) && t@ == texts[i])
}

/// Whether the field `key` of `new` holds the text `value` when one is
/// given, and is as in `old` otherwise.
pub open spec fn text_set(new: JsonValue, old: JsonValue, key: Seq<char>, value: Option<Seq<char>>) -> bool {
    match value {
        Some(v) => text_field(new, key) == Some(v),
        None => get_field(new, key) == get_field(old, key),
    }
}

/// The fields a Beads update may set.
pub open spec fn beads_update_keys() -> Seq<Seq<char>> {
    seq!["status"@, "priority"@, "title"@, "description"@, "assignee"@, "labels"@, "updated_at"@]
}

/// Whether `new` is the record `old` with the requested fields set and the
/// update time `updated_at`.
pub open spec fn beads_update_applied(
    new: JsonValue,
    old: JsonValue,
    status: Option<Seq<char>>,
    priority: Option<u8>,
    title: Option<Seq<char>>,
    description: Option<Seq<char>>,
    assignee: Option<Seq<char>>,
    labels: Option<Seq<Seq<char>>>,
    updated_at: Seq<char>,
) -> bool {
    &&& new is Object
    &&& forall|k: Seq<char>| !beads_update_keys().contains(k) ==> #[trigger] get_field(new, k) == get_field(old, k)
    &&& text_set(new, old, "status"@, status)
    &&& match priority {
        Some(p) => get_field(new, "priority"@) matches Some(JsonValue::Number(n)) && n@ == decimal_text(p as nat),
        None => get_field(new, "priority"@) == get_field(old, "priority"@),
    }
    &&& text_set(new, old, "title"@, title)
    &&& text_set(new, old, "description"@, description)
    &&& text_set(new, old, "assignee"@, assignee)
    &&& match labels {
        Some(l) => array_field(new, "labels"@) matches Some(a) && are_texts(a, l),
        None => get_field(new, "labels"@) == get_field(old, "labels"@),
    }
    &&& text_field(new, "updated_at"@) == Some(updated_at)
}

fn put_if(record: JsonValue, key: &str, value: Option<JsonValue>) -> (r: JsonValue)
    requires
        record is Object,
    ensures
        r is Object,
        same_fields_except(r, record, key@),
        match value {
            Some(x) => get_field(r, key@) == Some(x),
            None => get_field(r, key@) == get_field(record, key@),
        },
{
    match value {
        Some(x) => put_field(record, key, x),
        None => record,
    }
}

fn text_value(t: Option<&str>) -> (r: Option<JsonValue>)
    ensures
        match t {
            Some(s) => r matches Some(JsonValue::Text(x)) && x@ == s@,
            None => r is None,
        },
{
    match t {
        Some(s) => Some(JsonValue::Text(owned(s))),
        None => None,
    }
}

fn strings_of(items: &Vec<JsonValue>) -> (r: Vec<String>)
    ensures
        r.deep_view() == string_items(items@),
{
    let mut out: Vec<String> = Vec::new();
    let mut i: usize = 0;
    assert(items@.subrange(0, 0) =~= Seq::<JsonValue>::empty());
    while i < items.len()
        invariant
            i <= items@.len(),
            out.deep_view() == string_items(items@.subrange(0, i as int)),
        decreases items@.len() - i,
    {
        assert(items@.subrange(0, i + 1).drop_last() =~= items@.subrange(0, i as int));
        let ghost before = out.deep_view();
        if let JsonValue::Text(t) = &items[i] {
            out.push(t.clone());
            assert(out.deep_view() =~= before.push(t@));
        }
        i += 1;
    }
    assert(items@.subrange(0, items@.len() as int) =~= items@);
    out
}

fn texts_to_values(texts: &Vec<String>) -> (r: Vec<JsonValue>)
    ensures
        are_texts(r@, texts.deep_view()),
{
    let mut out: Vec<JsonValue> = Vec::new();
    let mut i: usize = 0;
    while i < texts.len()
        invariant
            i <= texts@.len(),
            are_texts(out@, texts.deep_view().subrange(0, i as int)),
        decreases texts@.len() - i,
    {
        let ghost before = out@;
        out.push(JsonValue::Text(texts[i].clone()));
        proof {
            assert forall|j: int| 0 <= j < out@.len() implies (#[trigger] out@[j] matches JsonValue::Text(t) && t@
                == texts.deep_view().subrange(0, i + 1)[j]) by {
                if j < i {
                    assert(out@[j] == before[j]);
                }
            }
        }
        i += 1;
    }
    assert(texts.deep_view().subrange(0, texts@.len() as int) =~= texts.deep_view());
    out
}

/// Update the fields of the Beads record that `identifier` resolves to
/// (a full or abbreviated identifier): status, priority, title,
/// description, assignee and labels, as requested, and the update time.
pub fn update_beads_issue(
    records: Vec<JsonValue>,
    identifier: &str,
    status: Option<&str>,
    priority: Option<u8>,
    title: Option<&str>,
    description: Option<&str>,
    assignee: Option<&str>,
    add_labels: &[String],
    remove_labels: &[String],
    set_labels: Option<&str>,
    updated_at: &str,
) -> (r: Result<Vec<JsonValue>, KanbusError>)
    ensures
        match beads_resolution(json_ids(records@), identifier@) {
            Err(m) => r matches Err(e) && e is IssueOperation && e->IssueOperation_0@ == m,
            Ok(i) => {
                let labels_requested = set_labels is Some || add_labels@.len() > 0 || remove_labels@.len() > 0;
                if !(status is Some || priority is Some || title is Some || description is Some || assignee is Some
                    || labels_requested) {
                    r matches Err(e) && e is IssueOperation && e->IssueOperation_0@ == "no updates requested"@
                } else {
                    r matches Ok(out) && out@.len() == records@.len() && (forall|j: int|
                        0 <= j < records@.len() && j != i ==> out@[j] == records@[j]) && beads_update_applied(
                        out@[i],
                        records@[i],
                        opt_str_view(status),
                        priority,
                        opt_str_view(title),
                        opt_str_view(description),
                        opt_str_view(assignee),
                        if labels_requested {
                            Some(
                                edited_labels(
                                    string_items(array_or_empty(records@[i], "labels"@)),
                                    add_labels.deep_view(),
                                    remove_labels.deep_view(),
                                    opt_str_view(set_labels),
                                ),
                            )
                        } else {
                            None
                        },
                        updated_at@,
                    )
                }
            },
        },
{
    let ghost old_records = records@;
    let ids = record_id_list(&records);
    proof {
        lemma_beads_resolution(json_ids(records@), identifier@);
    }
    let index = match resolve_beads_index(&ids, identifier) {
        Ok(i) => i,
        Err(e) => return Err(e),
    };
    let labels_requested = set_labels.is_some() || add_labels.len() > 0 || remove_labels.len() > 0;
    if !(status.is_some() || priority.is_some() || title.is_some() || description.is_some() || assignee.is_some()
        || labels_requested) {
        return Err(issue_error("no updates requested"));
    }
    let mut records = records;
    let record = records.remove(index);
    let ghost old_record = record;
    proof {
        assert(json_ids(old_records)[index as int] == text_field(old_record, "id"@));
    }
    let new_labels: Option<JsonValue> = if labels_requested {
        let current = match field_of(&record, "labels") {
            Some(JsonValue::Array(a)) => strings_of(a),
            _ => Vec::new(),
        };
        proof {
            if array_field(old_record, "labels"@) is None {
                assert(current.deep_view() =~= string_items(seq![]));
            }
        }
        let edited = edit_labels(&current, add_labels, remove_labels, set_labels);
        Some(JsonValue::Array(texts_to_values(&edited)))
    } else {
        None
    };
    let priority_value = match priority {
        Some(p) => Some(JsonValue::Number(decimal(p as u64))),
        None => None,
    };
    let r1 = put_if(record, "status", text_value(status));
    let r2 = put_if(r1, "priority", priority_value);
    let r3 = put_if(r2, "title", text_value(title));
    let r4 = put_if(r3, "description", text_value(description));
    let r5 = put_if(r4, "assignee", text_value(assignee));
    let r6 = put_if(r5, "labels", new_labels);
    let r7 = put_field(r6, "updated_at", JsonValue::Text(owned(updated_at)));
    proof {
        reveal_strlit("status");
        reveal_strlit("priority");
        reveal_strlit("title");
        reveal_strlit("description");
        reveal_strlit("assignee");
        reveal_strlit("labels");
        reveal_strlit("updated_at");
        assert("status"@.len() == 6 && "priority"@.len() == 8 && "title"@.len() == 5 && "description"@.len() == 11
            && "assignee"@.len() == 8 && "labels"@.len() == 6 && "updated_at"@.len() == 10);
        assert("status"@[0] == 's' && "labels"@[0] == 'l' && "priority"@[0] == 'p' && "assignee"@[0] == 'a');
        let keys = beads_update_keys();
        assert forall|k: Seq<char>| !keys.contains(k) implies #[trigger] get_field(r7, k) == get_field(old_record, k) by {
            assert(k != keys[0] && k != keys[1] && k != keys[2] && k != keys[3] && k != keys[4] && k != keys[5] && k != keys[6]);
            assert(get_field(r7, k) == get_field(r6, k));
            assert(get_field(r6, k) == get_field(r5, k));
            assert(get_field(r5, k) == get_field(r4, k));
            assert(get_field(r4, k) == get_field(r3, k));
            assert(get_field(r3, k) == get_field(r2, k));
            assert(get_field(r2, k) == get_field(r1, k));
            assert(get_field(r1, k) == get_field(old_record, k));
        }
        assert(get_field(r7, "status"@) == get_field(r1, "status"@)) by {
            assert(get_field(r7, "status"@) == get_field(r6, "status"@));
            assert(get_field(r6, "status"@) == get_field(r5, "status"@));
            assert(get_field(r5, "status"@) == get_field(r4, "status"@));
            assert(get_field(r4, "status"@) == get_field(r3, "status"@));
            assert(get_field(r3, "status"@) == get_field(r2, "status"@));
            assert(get_field(r2, "status"@) == get_field(r1, "status"@));
        }
        assert(get_field(r7, "priority"@) == get_field(r2, "priority"@)) by {
            assert(get_field(r7, "priority"@) == get_field(r6, "priority"@));
            assert(get_field(r6, "priority"@) == get_field(r5, "priority"@));
            assert(get_field(r5, "priority"@) == get_field(r4, "priority"@));
            assert(get_field(r4, "priority"@) == get_field(r3, "priority"@));
            assert(get_field(r3, "priority"@) == get_field(r2, "priority"@));
            assert(get_field(r2, "priority"@) == get_field(r1, "priority"@) || priority is Some);
            assert(get_field(r1, "priority"@) == get_field(old_record, "priority"@));
        }
        assert(get_field(r7, "title"@) == get_field(r3, "title"@)) by {
            assert(get_field(r7, "title"@) == get_field(r6, "title"@));
            assert(get_field(r6, "title"@) == get_field(r5, "title"@));
            assert(get_field(r5, "title"@) == get_field(r4, "title"@));
            assert(get_field(r4, "title"@) == get_field(r3, "title"@));
            assert(get_field(r2, "title"@) == get_field(r1, "title"@));
            assert(get_field(r1, "title"@) == get_field(old_record, "title"@));
        }
        assert(get_field(r7, "description"@) == get_field(r4, "description"@)) by {
            assert(get_field(r7, "description"@) == get_field(r6, "description"@));
            assert(get_field(r6, "description"@) == get_field(r5, "description"@));
            assert(get_field(r5, "description"@) == get_field(r4, "description"@));
            assert(get_field(r3, "description"@) == get_field(r2, "description"@));
            assert(get_field(r2, "description"@) == get_field(r1, "description"@));
            assert(get_field(r1, "description"@) == get_field(old_record, "description"@));
        }
        assert(get_field(r7, "assignee"@) == get_field(r5, "assignee"@)) by {
            assert(get_field(r7, "assignee"@) == get_field(r6, "assignee"@));
            assert(get_field(r6, "assignee"@) == get_field(r5, "assignee"@));
            assert(get_field(r4, "assignee"@) == get_field(r3, "assignee"@));
            assert(get_field(r3, "assignee"@) == get_field(r2, "assignee"@));
            assert(get_field(r2, "assignee"@) == get_field(r1, "assignee"@));
            assert(get_field(r1, "assignee"@) == get_field(old_record, "assignee"@));
        }
        assert(get_field(r7, "labels"@) == get_field(r6, "labels"@));
        assert(get_field(r5, "labels"@) == get_field(r4, "labels"@));
        assert(get_field(r4, "labels"@) == get_field(r3, "labels"@));
        assert(get_field(r3, "labels"@) == get_field(r2, "labels"@));
        assert(get_field(r2, "labels"@) == get_field(r1, "labels"@));
        assert(get_field(r1, "labels"@) == get_field(old_record, "labels"@));
    }
    records.insert(index, r7);
    assert(records@ =~= old_records.update(index as int, r7));
    Ok(records)
}

proof fn lemma_surviving(records: Seq<JsonValue>, id: Seq<char>)
    ensures
        surviving(records, id).len() <= records.len(),
        forall|j: int| 0 <= j < surviving(records, id).len() ==> text_field(#[trigger] surviving(records, id)[j], "id"@) != Some(id),
    decreases records.len(),
{
    if records.len() > 0 {
        lemma_surviving(records.drop_last(), id);
    }
}

proof fn lemma_kept_not_on(deps: Seq<JsonValue>, id: Seq<char>)
    ensures
        forall|j: int| 0 <= j < kept_not_on(deps, id).len() ==> text_field(#[trigger] kept_not_on(deps, id)[j], "depends_on_id"@) != Some(id),
    decreases deps.len(),
{
    if deps.len() > 0 {
        lemma_kept_not_on(deps.drop_last(), id);
    }
}

/// After an issue is deleted from the Beads records, no record has its
/// identifier, names it as parent, or depends on it.
pub proof fn lemma_deleted_issue_leaves_no_references(records: Seq<JsonValue>, out: Seq<JsonValue>, id: Seq<char>)
    requires
        out.len() == surviving(records, id).len(),
        forall|j: int| 0 <= j < out.len() ==> cleaned(#[trigger] out[j], surviving(records, id)[j], id),
    ensures
        forall|j: int| 0 <= j < out.len() ==> text_field(#[trigger] out[j], "id"@) != Some(id),
        forall|j: int| 0 <= j < out.len() ==> text_field(#[trigger] out[j], "parent"@) != Some(id),
        forall|j: int, k: int|
            0 <= j < out.len() && 0 <= k < array_or_empty(out[j], "dependencies"@).len() ==> text_field(
                #[trigger] array_or_empty(out[j], "dependencies"@)[k],
                "depends_on_id"@,
            ) != Some(id),
{
    lemma_surviving(records, id);
    reveal_strlit("id");
    reveal_strlit("parent");
    reveal_strlit("dependencies");
    assert("id"@.len() == 2 && "parent"@.len() == 6 && "dependencies"@.len() == 12);
    assert forall|j: int| 0 <= j < out.len() implies text_field(#[trigger] out[j], "id"@) != Some(id) by {
        let old = surviving(records, id)[j];
        assert(cleaned(out[j], old, id));
        if old is Object {
            assert(get_field(out[j], "id"@) == get_field(old, "id"@));
        }
    }
    assert forall|j: int| 0 <= j < out.len() implies text_field(#[trigger] out[j], "parent"@) != Some(id) by {
        let old = surviving(records, id)[j];
        assert(cleaned(out[j], old, id));
    }
    assert forall|j: int, k: int|
        0 <= j < out.len() && 0 <= k < array_or_empty(out[j], "dependencies"@).len() implies text_field(
            #[trigger] array_or_empty(out[j], "dependencies"@)[k],
            "depends_on_id"@,
        ) != Some(id) by {
        let old = surviving(records, id)[j];
        assert(cleaned(out[j], old, id));
        if old is Object {
            match array_field(old, "dependencies"@) {
                Some(d) => {
                    lemma_kept_not_on(d, id);
                },
                None => {
                    assert(get_field(out[j], "dependencies"@) == get_field(old, "dependencies"@));
                },
            }
        }
    }
}

/// The records of the first `n` lines: blank lines are skipped, every
/// other line is one JSON record; the first line that is no JSON gives its
/// parser's message.
pub open spec fn parsed_record_lines(lines: Seq<Seq<char>>, n: int) -> Result<Seq<JsonValue>, Seq<char>>
    decreases n,
{
    if n <= 0 {
        Ok(seq![])
    } else {
        match parsed_record_lines(lines, n - 1) {
            Err(m) => Err(m),
            Ok(vs) => if trim_ws(lines[n - 1]).len() == 0 {
                Ok(vs)
            } else {
                match json_text_value(lines[n - 1]) {
                    Ok(v) => Ok(vs.push(v)),
                    Err(m) => Err(m),
                }
            },
        }
    }
}

/// The records of `.beads/issues.jsonl`: one JSON value per non-blank line,
/// or an I/O error with the message of the first line that does not parse.
pub fn parse_beads_records(text: &str) -> (r: Result<Vec<JsonValue>, KanbusError>)
    ensures
        ({
            let lines = crate::agents_management::text_lines_of(text@);
            match parsed_record_lines(lines, lines.len() as int) {
                Ok(vs) => r matches Ok(rs) && rs@ == vs,
                Err(m) => r matches Err(e) && e is Io && e->Io_0@ == m,
            }
        }),
{
    let lines = crate::agents_management::text_lines(text);
    let ghost ls = lines.deep_view();
    let mut records: Vec<JsonValue> = Vec::new();
    let mut i: usize = 0;
    while i < lines.len()
        invariant
            i <= lines@.len(),
            ls == lines.deep_view(),
            ls == crate::agents_management::text_lines_of(text@),
            parsed_record_lines(ls, i as int) == Ok::<Seq<JsonValue>, Seq<char>>(records@),
        decreases lines@.len() - i,
    {
        assert(lines@[i as int]@ == ls[i as int]);
        if trim(lines[i].as_str()).unicode_len() > 0 {
            match json_text_value_of(lines[i].as_str()) {
                Ok(v) => {
                    records.push(v);
                },
                Err(m) => {
                    proof {
                        assert(parsed_record_lines(ls, i as int + 1) == Err::<Seq<JsonValue>, Seq<char>>(m@));
                        lemma_parse_error_stays(ls, i as int + 1, ls.len() as int);
                    }
                    return Err(KanbusError::Io(m));
                },
            }
        }
        i += 1;
    }
    assert(i == ls.len());
    Ok(records)
}

proof fn lemma_parse_error_stays(lines: Seq<Seq<char>>, k: int, n: int)
    requires
        0 <= k <= n,
        parsed_record_lines(lines, k) is Err,
    ensures
        parsed_record_lines(lines, n) == parsed_record_lines(lines, k),
    decreases n - k,
{
    if k < n {
        lemma_parse_error_stays(lines, k + 1, n);
    }
}

} // verus!
