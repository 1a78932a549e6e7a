//! JSON values as plain data, and field access on JSON objects.

use vstd::prelude::*;

use crate::text::{equals, owned, push_char};

verus! {

/// A JSON value. Numbers keep their JSON text; an object keeps its entries
/// as key-value pairs.
#[derive(Debug)]
pub enum JsonValue {
    Null,
    Bool(bool),
    Number(String),
    Text(String),
    Array(Vec<JsonValue>),
    Object(Vec<(String, JsonValue)>),
}

/// The value of the first entry with the key `key`.
pub open spec fn lookup(entries: Seq<(String, JsonValue)>, key: Seq<char>) -> Option<JsonValue>
    decreases entries.len(),
{
    if entries.len() == 0 {
        None
    } else {
        match lookup(entries.drop_last(), key) {
            Some(v) => Some(v),
            None => if entries.last().0@ == key {
                Some(entries.last().1)
            } else {
                None
            },
        }
    }
}

/// The value of the field `key` of an object; nothing for other values.
pub open spec fn get_field(v: JsonValue, key: Seq<char>) -> Option<JsonValue> {
    match v {
        JsonValue::Object(entries) => lookup(entries@, key),
        _ => None,
    }
}

/// The text of the field `key`, when it holds a string.
pub open spec fn text_field(v: JsonValue, key: Seq<char>) -> Option<Seq<char>> {
    match get_field(v, key) {
        Some(JsonValue::Text(s)) => Some(s@),
        _ => None,
    }
}

/// The elements of the field `key`, when it holds an array.
pub open spec fn array_field(v: JsonValue, key: Seq<char>) -> Option<Seq<JsonValue>> {
    match get_field(v, key) {
        Some(JsonValue::Array(a)) => Some(a@),
        _ => None,
    }
}

/// Whether two values have the same fields, but for the field `key`.
pub open spec fn same_fields_except(a: JsonValue, b: JsonValue, key: Seq<char>) -> bool {
    forall|k: Seq<char>| k != key ==> #[trigger] get_field(a, k) == get_field(b, k)
}

proof fn lemma_lookup_push(s: Seq<(String, JsonValue)>, x: (String, JsonValue), k: Seq<char>)
    ensures
        lookup(s.push(x), k) == (match lookup(s, k) {
            Some(v) => Some(v),
            None => if x.0@ == k {
                Some(x.1)
            } else {
                None
            },
        }),
{
    assert(s.push(x).drop_last() =~= s);
}

proof fn lemma_lookup_prefix(s: Seq<(String, JsonValue)>, n: int, k: Seq<char>)
    requires
        0 <= n <= s.len(),
        lookup(s.subrange(0, n), k) is Some,
    ensures
        lookup(s, k) == lookup(s.subrange(0, n), k),
    decreases s.len() - n,
{
    if n < s.len() {
        lemma_lookup_push(s.subrange(0, n), s[n], k);
        assert(s.subrange(0, n + 1) =~= s.subrange(0, n).push(s[n]));
        lemma_lookup_prefix(s, n + 1, k);
    } else {
        assert(s.subrange(0, n) =~= s);
    }
}

/// The field `key` of a value, when it is an object that has one.
pub fn field_of<'a>(v: &'a JsonValue, key: &str) -> (r: Option<&'a JsonValue>)
    ensures
        match r {
            Some(x) => get_field(*v, key@) == Some(*x),
            None => get_field(*v, key@) is None,
        },
{
    match v {
        JsonValue::Object(entries) => {
            let mut i: usize = 0;
            assert(entries@.subrange(0, 0) =~= Seq::<(String, JsonValue)>::empty());
            while i < entries.len()
                invariant
                    i <= entries@.len(),
                    get_field(*v, key@) == lookup(entries@, key@),
                    lookup(entries@.subrange(0, i as int), key@) is None,
                decreases entries@.len() - i,
            {
                proof {
                    lemma_lookup_push(entries@.subrange(0, i as int), entries@[i as int], key@);
                    assert(entries@.subrange(0, i + 1) =~= entries@.subrange(0, i as int).push(entries@[i as int]));
                }
                if equals(&entries[i].0, key) {
                    proof {
                        assert(lookup(entries@.subrange(0, i + 1), key@) == Some(entries@[i as int].1));
                        lemma_lookup_prefix(entries@, i + 1, key@);
                    }
                    return Some(&entries[i].1);
                }
                i += 1;
            }
            assert(entries@.subrange(0, entries@.len() as int) =~= entries@);
            None
        },
        _ => None,
    }
}

/// The text of the field `key`, when it holds a string.
pub fn text_of<'a>(v: &'a JsonValue, key: &str) -> (r: Option<&'a str>)
    ensures
        match r {
            Some(s) => text_field(*v, key@) == Some(s@),
            None => text_field(*v, key@) is None,
        },
{
    match field_of(v, key) {
        Some(JsonValue::Text(s)) => Some(s.as_str()),
        _ => None,
    }
}

/// Remove every entry with the key `key` from an object, giving back the
/// value the field had.
pub fn remove_field(v: JsonValue, key: &str) -> (r: (JsonValue, Option<JsonValue>))
    requires
        v is Object,
    ensures
        r.0 is Object,
        get_field(r.0, key@) is None,
        same_fields_except(r.0, v, key@),
        r.1 == get_field(v, key@),
{
    let ghost old_v = v;
    let mut rest = match v {
        JsonValue::Object(entries) => entries,
        _ => Vec::new(),
    };
    let ghost all = rest@;
    let n = rest.len();
    let mut kept: Vec<(String, JsonValue)> = Vec::new();
    let mut removed: Option<JsonValue> = None;
    let mut i: usize = 0;
    assert(all.subrange(0, 0) =~= Seq::<(String, JsonValue)>::empty());
    while i < n
        invariant
            n == all.len(),
            i <= n,
            rest@ == all.subrange(i as int, n as int),
            forall|k: Seq<char>| k != key@ ==> #[trigger] lookup(kept@, k) == lookup(all.subrange(0, i as int), k),
            lookup(kept@, key@) is None,
            removed == lookup(all.subrange(0, i as int), key@),
        decreases n - i,
    {
        let entry = rest.remove(0);
        proof {
            assert(rest@ =~= all.subrange(i + 1, n as int));
            assert(all.subrange(0, i + 1) =~= all.subrange(0, i as int).push(entry));
            assert forall|k: Seq<char>| true implies #[trigger] lookup(all.subrange(0, i + 1), k) == (match lookup(all.subrange(0, i as int), k) {
                Some(x) => Some(x),
                None => if entry.0@ == k {
                    Some(entry.1)
                } else {
                    None
                },
            }) by {
                lemma_lookup_push(all.subrange(0, i as int), entry, k);
            }
        }
        if equals(&entry.0, key) {
            if removed.is_none() {
                removed = Some(entry.1);
            }
        } else {
            let ghost before = kept@;
            kept.push(entry);
            proof {
                assert forall|k: Seq<char>| true implies #[trigger] lookup(kept@, k) == (match lookup(before, k) {
                    Some(x) => Some(x),
                    None => if kept@.last().0@ == k {
                        Some(kept@.last().1)
                    } else {
                        None
                    },
                }) by {
                    lemma_lookup_push(before, kept@.last(), k);
                }
            }
        }
        i += 1;
    }
    assert(all.subrange(0, n as int) =~= all);
    (JsonValue::Object(kept), removed)
}

/// Set the field `key` of an object to `value`.
pub fn put_field(v: JsonValue, key: &str, value: JsonValue) -> (r: JsonValue)
    requires
        v is Object,
    ensures
        r is Object,
        get_field(r, key@) == Some(value),
        same_fields_except(r, v, key@),
{
    let (stripped, _) = remove_field(v, key);
    let ghost stripped_v = stripped;
    let mut entries = match stripped {
        JsonValue::Object(entries) => entries,
        _ => Vec::new(),
    };
    let ghost before = entries@;
    let k = owned(key);
    let ghost pushed = (k, value);
    entries.push((k, value));
    proof {
        assert(entries@ == before.push(pushed));
        assert forall|q: Seq<char>| true implies #[trigger] lookup(entries@, q) == (match lookup(before, q) {
            Some(x) => Some(x),
            None => if pushed.0@ == q {
                Some(pushed.1)
            } else {
                None
            },
        }) by {
            lemma_lookup_push(before, pushed, q);
        }
        assert(before == match stripped_v {
            JsonValue::Object(e) => e@,
            _ => before,
        });
        assert forall|q: Seq<char>| q != key@ implies #[trigger] get_field(JsonValue::Object(entries), q) == get_field(v, q) by {
            assert(get_field(stripped_v, q) == get_field(v, q));
            assert(get_field(stripped_v, q) == lookup(before, q));
        }
    }
    JsonValue::Object(entries)
}

/// A `serde_json::Value`, carried opaquely.
#[verifier::external_type_specification]
#[verifier::external_body]
pub struct ExSerdeJsonValue(serde_json::Value);

/// A `serde_json::Value` as the library's JSON value, one for one: numbers
/// keep their JSON text (`Number::to_string`), objects their entries in the
/// map's order. Nothing is stated of the result: the input is opaque.
#[verifier::external_body]
fn json_value_of_serde(value: serde_json::Value) -> (r: JsonValue) {
    match value {
        serde_json::Value::Null => JsonValue::Null,
        serde_json::Value::Bool(flag) => JsonValue::Bool(flag),
        serde_json::Value::Number(number) => JsonValue::Number(number.to_string()),
        serde_json::Value::String(text) => JsonValue::Text(text),
        serde_json::Value::Array(items) => JsonValue::Array(items.into_iter().map(json_value_of_serde).collect()),
        serde_json::Value::Object(entries) => JsonValue::Object(
            entries.into_iter().map(|(key, item)| (key, json_value_of_serde(item))).collect(),
        ),
    }
}

/// The library's JSON value as a `serde_json::Value`, one for one: a
/// number from its JSON text (null where the text is no JSON number),
/// objects with their entries in order. Nothing is stated of the result:
/// the output is opaque.
#[verifier::external_body]
pub(crate) fn serde_value_of_json(value: &JsonValue) -> (r: serde_json::Value) {
    match value {
        JsonValue::Null => serde_json::Value::Null,
        JsonValue::Bool(flag) => serde_json::Value::Bool(*flag),
        JsonValue::Number(text) => serde_json::from_str::<serde_json::Number>(text)
            .map(serde_json::Value::Number)
            .unwrap_or(serde_json::Value::Null),
        JsonValue::Text(text) => serde_json::Value::String(text.clone()),
        JsonValue::Array(items) => serde_json::Value::Array(items.iter().map(serde_value_of_json).collect()),
        JsonValue::Object(entries) => serde_json::Value::Object(
            entries.iter().map(|(key, item)| (key.clone(), serde_value_of_json(item))).collect(),
        ),
    }
}

/// What `serde_json::from_str` reads from a JSON text, as the library's
/// JSON value, or the text of its error.
pub uninterp spec fn json_text_value(text: Seq<char>) -> Result<JsonValue, Seq<char>>;

/// Parse a JSON text: `serde_json::from_str` into a `serde_json::Value`,
/// given back as the library's JSON value, or the error's text. The result
/// depends on the text alone; it is named, not spelled out.
#[verifier::external_body]
pub(crate) fn json_text_value_of(text: &str) -> (r: Result<JsonValue, String>)
    ensures
        match r {
            Ok(v) => json_text_value(text@) == Ok::<JsonValue, Seq<char>>(v),
            Err(m) => json_text_value(text@) == Err::<JsonValue, Seq<char>>(m@),
        },
{
    match serde_json::from_str::<serde_json::Value>(text) {
        Ok(value) => Ok(json_value_of_serde(value)),
        Err(error) => Err(error.to_string()),
    }
}

/// What `serde_yaml::from_str` reads from a YAML text, carried over to the
/// library's JSON value through `serde_json::to_value` (mapping keys that are
/// numbers or flags become their text), or the text of the error.
pub uninterp spec fn yaml_text_value(text: Seq<char>) -> Result<JsonValue, Seq<char>>;

/// Parse a YAML text: `serde_yaml::from_str` into a `serde_yaml::Value`,
/// then `serde_json::to_value`, given back as the library's JSON value, or
/// the error's text. The result depends on the text alone; it is named, not
/// spelled out.
#[verifier::external_body]
pub(crate) fn yaml_text_value_of(text: &str) -> (r: Result<JsonValue, String>)
    ensures
        match r {
            Ok(v) => yaml_text_value(text@) == Ok::<JsonValue, Seq<char>>(v),
            Err(m) => yaml_text_value(text@) == Err::<JsonValue, Seq<char>>(m@),
        },
{
    let parsed: serde_yaml::Value = match serde_yaml::from_str(text) {
        Ok(value) => value,
        Err(error) => return Err(error.to_string()),
    };
    match serde_json::to_value(parsed) {
        Ok(value) => Ok(json_value_of_serde(value)),
        Err(error) => Err(error.to_string()),
    }
}

/// A character as `serde_json` writes it inside a string: quote, backslash
/// and the short control escapes, other control characters as `\u00xx`.
pub open spec fn json_escape(c: char) -> Seq<char> {
    if c == '"' {
        seq!['\\', '"']
    } else if c == '\\' {
        seq!['\\', '\\']
    } else if c == '\n' {
        seq!['\\', 'n']
    } else if c == '\r' {
        seq!['\\', 'r']
    } else if c == '\t' {
        seq!['\\', 't']
    } else if c == '\x08' {
        seq!['\\', 'b']
    } else if c == '\x0c' {
        seq!['\\', 'f']
    } else if (c as u32) < 0x20 {
        seq!['\\', 'u', '0', '0', hex_char((c as u32) as int / 16), hex_char((c as u32) as int % 16)]
    } else {
        seq![c]
    }
}

/// A lowercase hexadecimal digit.
pub open spec fn hex_char(n: int) -> char {
    seq!['0', '1', '2', '3', '4', '5', '6', '7', '8', '9', 'a', 'b', 'c', 'd', 'e', 'f'][n]
}

/// The characters of a text escaped for a JSON string.
pub open spec fn json_escaped_text(s: Seq<char>) -> Seq<char>
    decreases s.len(),
{
    if s.len() == 0 {
        seq![]
    } else {
        json_escaped_text(s.drop_last()) + json_escape(s.last())
    }
}

/// A text as a JSON string.
pub open spec fn json_quoted(s: Seq<char>) -> Seq<char> {
    seq!['"'] + json_escaped_text(s) + seq!['"']
}

/// A JSON value written compactly, as `serde_json::to_string` writes it.
pub open spec fn compact_json(v: JsonValue) -> Seq<char>
    decreases v, 0int,
{
    match v {
        JsonValue::Null => "null"@,
        JsonValue::Bool(b) => if b {
            "true"@
        } else {
            "false"@
        },
        JsonValue::Number(n) => n@,
        JsonValue::Text(t) => json_quoted(t@),
        JsonValue::Array(items) => seq!['['] + compact_items(items@) + seq![']'],
        JsonValue::Object(entries) => seq!['{'] + compact_entries(entries@) + seq!['}'],
    }
}

/// JSON values written compactly, joined by commas.
pub open spec fn compact_items(items: Seq<JsonValue>) -> Seq<char>
    decreases items, 1int,
{
    if items.len() == 0 {
        seq![]
    } else if items.len() == 1 {
        compact_json(items[0])
    } else {
        compact_items(items.drop_last()) + seq![','] + compact_json(items.last())
    }
}

/// Object entries written compactly, joined by commas.
pub open spec fn compact_entries(entries: Seq<(String, JsonValue)>) -> Seq<char>
    decreases entries, 1int,
{
    if entries.len() == 0 {
        seq![]
    } else if entries.len() == 1 {
        json_quoted(entries[0].0@) + seq![':'] + compact_json(entries[0].1)
    } else {
        compact_entries(entries.drop_last()) + seq![','] + json_quoted(entries.last().0@) + seq![':'] + compact_json(
            entries.last().1,
        )
    }
}

/// Append the characters of `s`.
fn push_text(out: &mut String, s: &str)
    ensures
        final(out)@ == old(out)@ + s@,
{
    let n = s.unicode_len();
    let ghost start = out@;
    let mut i: usize = 0;
    while i < n
        invariant
            n == s@.len(),
            i <= n,
            out@ == start + s@.take(i as int),
        decreases n - i,
    {
        let c = s.get_char(i);
        push_char(out, c);
        assert(s@.take(i + 1) =~= s@.take(i as int).push(c));
        i += 1;
    }
    assert(s@.take(n as int) =~= s@);
}

/// Append a text as a JSON string.
fn push_quoted(out: &mut String, s: &str)
    ensures
        final(out)@ == old(out)@ + json_quoted(s@),
{
    let hex: Vec<char> = vec!['0', '1', '2', '3', '4', '5', '6', '7', '8', '9', 'a', 'b', 'c', 'd', 'e', 'f'];
    assert(hex@ =~= seq!['0', '1', '2', '3', '4', '5', '6', '7', '8', '9', 'a', 'b', 'c', 'd', 'e', 'f']);
    let ghost start = out@;
    push_char(out, '"');
    let n = s.unicode_len();
    let mut i: usize = 0;
    while i < n
        invariant
            n == s@.len(),
            i <= n,
            hex@ == seq!['0', '1', '2', '3', '4', '5', '6', '7', '8', '9', 'a', 'b', 'c', 'd', 'e', 'f'],
            out@ == start + seq!['"'] + json_escaped_text(s@.take(i as int)),
        decreases n - i,
    {
        let c = s.get_char(i);
        let ghost before = out@;
        if c == '"' {
            push_char(out, '\\');
            push_char(out, '"');
        } else if c == '\\' {
            push_char(out, '\\');
            push_char(out, '\\');
        } else if c == '\n' {
            push_char(out, '\\');
            push_char(out, 'n');
        } else if c == '\r' {
            push_char(out, '\\');
            push_char(out, 'r');
        } else if c == '\t' {
            push_char(out, '\\');
            push_char(out, 't');
        } else if c == '\x08' {
            push_char(out, '\\');
            push_char(out, 'b');
        } else if c == '\x0c' {
            push_char(out, '\\');
            push_char(out, 'f');
        } else if (c as u32) < 0x20 {
            let code = c as u32;
            push_char(out, '\\');
            push_char(out, 'u');
            push_char(out, '0');
            push_char(out, '0');
            push_char(out, hex[(code / 16) as usize]);
            push_char(out, hex[(code % 16) as usize]);
        } else {
            push_char(out, c);
        }
        proof {
            assert(out@ =~= before + json_escape(c));
            assert(s@.take(i + 1).drop_last() =~= s@.take(i as int));
            assert(s@.take(i + 1).last() == c);
        }
        i += 1;
    }
    assert(s@.take(n as int) =~= s@);
    push_char(out, '"');
    assert(out@ =~= start + json_quoted(s@));
}

/// Append a JSON value written compactly.
fn push_compact(out: &mut String, v: &JsonValue)
    ensures
        final(out)@ == old(out)@ + compact_json(*v),
    decreases v,
{
    let ghost start = out@;
    match v {
        JsonValue::Null => push_text(out, "null"),
        JsonValue::Bool(b) => {
            if *b {
                push_text(out, "true");
            } else {
                push_text(out, "false");
            }
        },
        JsonValue::Number(n) => push_text(out, n.as_str()),
        JsonValue::Text(t) => push_quoted(out, t.as_str()),
        JsonValue::Array(items) => {
            push_char(out, '[');
            let mut i: usize = 0;
            while i < items.len()
                invariant
                    i <= items@.len(),
                    *v == JsonValue::Array(*items),
                    out@ == start + seq!['['] + compact_items(items@.take(i as int)),
                decreases items@.len() - i,
            {
                let ghost before = out@;
                if i > 0 {
                    push_char(out, ',');
                }
                proof {
                    assert(decreases_to!(*v => (*v)->Array_0));
                    assert(decreases_to!(*items => items@));
                    assert(decreases_to!(items@ => items@[i as int]));
                }
                push_compact(out, &items[i]);
                proof {
                    let t = items@.take(i + 1);
                    assert(t.drop_last() =~= items@.take(i as int));
                    assert(t.last() == items@[i as int]);
                    if i == 0 {
                        assert(items@.take(0) =~= Seq::<JsonValue>::empty());
                    }
                    assert(out@ =~= start + seq!['['] + compact_items(t));
                }
                i += 1;
            }
            assert(items@.take(items@.len() as int) =~= items@);
            push_char(out, ']');
            assert(out@ =~= start + compact_json(*v));
        },
        JsonValue::Object(entries) => {
            push_char(out, '{');
            let mut i: usize = 0;
            while i < entries.len()
                invariant
                    i <= entries@.len(),
                    *v == JsonValue::Object(*entries),
                    out@ == start + seq!['{'] + compact_entries(entries@.take(i as int)),
                decreases entries@.len() - i,
            {
                if i > 0 {
                    push_char(out, ',');
                }
                push_quoted(out, entries[i].0.as_str());
                push_char(out, ':');
                proof {
                    assert(decreases_to!(*v => (*v)->Object_0));
                    assert(decreases_to!(*entries => entries@));
                    assert(decreases_to!(entries@ => entries@[i as int]));
                    assert(decreases_to!(entries@[i as int] => entries@[i as int].1));
                }
                push_compact(out, &entries[i].1);
                proof {
                    let t = entries@.take(i + 1);
                    assert(t.drop_last() =~= entries@.take(i as int));
                    assert(t.last() == entries@[i as int]);
                    if i == 0 {
                        assert(entries@.take(0) =~= Seq::<(String, JsonValue)>::empty());
                    }
                    assert(out@ =~= start + seq!['{'] + compact_entries(t));
                }
                i += 1;
            }
            assert(entries@.take(entries@.len() as int) =~= entries@);
            push_char(out, '}');
            assert(out@ =~= start + compact_json(*v));
        },
    }
}

/// A JSON value written compactly, as `serde_json::to_string` writes it.
pub fn compact_json_text(v: &JsonValue) -> (r: String)
    ensures
        r@ == compact_json(*v),
{
    let mut out = String::new();
    push_compact(&mut out, v);
    assert(out@ =~= compact_json(*v));
    out
}

} // verus!
