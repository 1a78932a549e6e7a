//! Agent provenance metadata: normalization, validation and display.

use vstd::prelude::*;
use vstd::string::*;

use crate::error::KanbusError;
use crate::ids::{format_issue_key, issue_key_text};
use crate::json_value::{compact_json, compact_json_text, json_text_value, json_text_value_of, JsonValue};
use crate::models::{keys_ascending, opt_text_view, AgentMetadata, FieldValue};
use crate::text::{
    is_whitespace_char, is_ws, join3, lemma_str_lt_total, lemma_str_lt_transitive, lemma_trim_empty, owned, push_char,
    str_less, str_lt, to_ascii_lowercase, trim, trim_ws, ascii_lower, equals, utf8_len, utf8_longer_than,
};

verus! {

/// The view of an optional text.
pub open spec fn opt_str_view(o: Option<&str>) -> Option<Seq<char>> {
    match o {
        Some(t) => Some(t@),
        None => None,
    }
}

/// The metadata an optional reference points to.
pub open spec fn opt_agent(o: Option<&AgentMetadata>) -> Option<AgentMetadata> {
    match o {
        Some(a) => Some(*a),
        None => None,
    }
}

/// Longest agent name, in bytes.
pub const MAX_AGENT_NAME_LENGTH: usize = 128;

/// Optional agent metadata inputs from CLI flags and environment.
pub struct AgentMetadataRequest {
    pub platform: Option<String>,
    pub model: Option<String>,
    pub name: Option<String>,
    pub settings_json: Option<String>,
}

fn issue_error(message: &str) -> (e: KanbusError)
    ensures
        e == KanbusError::IssueOperation(e->IssueOperation_0),
        e->IssueOperation_0@ == message@,
{
    KanbusError::IssueOperation(owned(message))
}

/// A text without surrounding whitespace, or nothing when it is blank.
pub open spec fn normalized_text(value: Option<Seq<char>>) -> Option<Seq<char>> {
    match value {
        Some(t) => if trim_ws(t).len() == 0 {
            None
        } else {
            Some(trim_ws(t))
        },
        None => None,
    }
}

/// Trim an optional text, dropping it when it is blank.
pub fn normalize_optional_text(value: Option<&str>) -> (r: Option<String>)
    ensures
        match r {
            Some(s) => normalized_text(opt_str_view(value)) == Some(s@),
            None => normalized_text(opt_str_view(value)) is None,
        },
{
    match value {
        Some(text) => {
            let trimmed = trim(text);
            if trimmed.unicode_len() == 0 {
                None
            } else {
                Some(trimmed)
            }
        },
        None => None,
    }
}

/// The words of `s` (its runs of non-whitespace) joined by '_', as
/// `split_whitespace` followed by `join("_")` gives them.
pub open spec fn slug_of(s: Seq<char>) -> Seq<char>
    decreases s.len(),
{
    if s.len() == 0 {
        seq![]
    } else if is_ws(s.last()) {
        slug_of(s.drop_last())
    } else {
        let p = s.drop_last();
        let prev = slug_of(p);
        if p.len() > 0 && is_ws(p.last()) && prev.len() > 0 {
            prev.push('_').push(s.last())
        } else {
            prev.push(s.last())
        }
    }
}

fn slugify(s: &str) -> (r: String)
    ensures
        r@ == slug_of(s@),
{
    let n = s.unicode_len();
    let mut out = String::new();
    let mut i: usize = 0;
    while i < n
        invariant
            n == s@.len(),
            i <= n,
            out@ == slug_of(s@.subrange(0, i as int)),
        decreases n - i,
    {
        let c = s.get_char(i);
        let ghost p = s@.subrange(0, i as int);
        assert(s@.subrange(0, i + 1).drop_last() =~= p);
        if !is_whitespace_char(c) {
            if i > 0 && is_whitespace_char(s.get_char(i - 1)) && out.unicode_len() > 0 {
                push_char(&mut out, '_');
            }
            push_char(&mut out, c);
        }
        i += 1;
    }
    assert(s@.subrange(0, n as int) =~= s@);
    out
}

/// The platform pattern `^[a-z0-9_-]{1,64}$`.
pub open spec fn platform_pattern(s: Seq<char>) -> bool {
    1 <= s.len() <= 64 && forall|i: int|
        0 <= i < s.len() ==> (('a' <= #[trigger] s[i] <= 'z') || ('0' <= s[i] <= '9') || s[i] == '_' || s[i]
            == '-')
}

/// Whether a character matches the lowercase ASCII letter or symbol `lower`
/// when case is ignored by simple case folding: the letter itself, its
/// uppercase form, and for 'k' the Kelvin sign, for 's' the long s.
pub open spec fn folds_to(c: char, lower: char) -> bool {
    ||| c == lower
    ||| ('a' <= lower <= 'z' && (c as u32) + 32 == (lower as u32))
    ||| (lower == 'k' && c == '\u{212A}')
    ||| (lower == 's' && c == '\u{17F}')
}

/// Whether `word` stands in `key` at position `i`, case ignored.
pub open spec fn word_at(key: Seq<char>, i: int, word: Seq<char>) -> bool {
    &&& 0 <= i
    &&& i + word.len() <= key.len()
    &&& forall|j: int| 0 <= j < word.len() ==> folds_to(#[trigger] key[i + j], word[j])
}

/// Whether one of the words of `(api[_-]?key|token|secret|password|credential)`
/// starts at position `i` of `key`, case ignored.
pub open spec fn secret_word_at(key: Seq<char>, i: int) -> bool {
    ||| (word_at(key, i, "api"@) && (word_at(key, i + 3, "key"@) || (i + 3 < key.len() && (key[i + 3] == '_'
        || key[i + 3] == '-') && word_at(key, i + 4, "key"@))))
    ||| word_at(key, i, "token"@)
    ||| word_at(key, i, "secret"@)
    ||| word_at(key, i, "password"@)
    ||| word_at(key, i, "credential"@)
}

/// Whether a settings key looks like it names a secret: the case-insensitive
/// pattern `(api[_-]?key|token|secret|password|credential)` matches
/// somewhere in it.
pub open spec fn secret_like_key(key: Seq<char>) -> bool {
    exists|i: int| 0 <= i < key.len() && #[trigger] secret_word_at(key, i)
}

/// `regex::Regex::new(pattern)` and then `is_match(text)`, for the two
/// patterns of agent metadata. `^[a-z0-9_-]{1,64}$` matches one to
/// sixty-four characters, each a lowercase ASCII letter, a digit, '_' or
/// '-', from the start of the text to its end (`platform_pattern`); the
/// case-insensitive `(api[_-]?key|token|secret|password|credential)`
/// matches where one of those words stands anywhere in the text, each
/// letter compared under the crate's simple case folding
/// (`secret_like_key`). Both patterns compile.
#[verifier::external_body]
fn regex_is_match(pattern: &str, text: &str) -> (r: bool)
    requires
        pattern@ == "^[a-z0-9_-]{1,64}$"@ || pattern@ == "(?i)(api[_-]?key|token|secret|password|credential)"@,
    ensures
        pattern@ == "^[a-z0-9_-]{1,64}$"@ ==> r == platform_pattern(text@),
        pattern@ == "(?i)(api[_-]?key|token|secret|password|credential)"@ ==> r == secret_like_key(text@),
{
    match regex::Regex::new(pattern) {
        Ok(compiled) => compiled.is_match(text),
        Err(_) => false,
    }
}

/// The platform slug of a platform name: its words joined by '_' in
/// lowercase ASCII.
pub open spec fn platform_slug(platform: Seq<char>) -> Seq<char> {
    ascii_lower(slug_of(platform))
}

/// Normalize a platform name to its slug, rejecting slugs outside the
/// platform pattern.
pub fn normalize_platform(platform: &str) -> (r: Result<String, KanbusError>)
    ensures
        platform_pattern(platform_slug(platform@)) ==> (r matches Ok(s) && s@ == platform_slug(platform@)),
        !platform_pattern(platform_slug(platform@)) ==> (r matches Err(e) && e is IssueOperation
            && e->IssueOperation_0@ == "invalid agent platform"@),
{
    let slug = slugify(platform);
    let normalized = to_ascii_lowercase(&slug);
    if !regex_is_match("^[a-z0-9_-]{1,64}$", &normalized) {
        return Err(issue_error("invalid agent platform"));
    }
    Ok(normalized)
}

/// Trim an optional agent name, rejecting names longer than 128 bytes.
pub fn normalize_agent_name(name: Option<&str>) -> (r: Result<Option<String>, KanbusError>)
    ensures
        match normalized_text(opt_str_view(name)) {
            None => r matches Ok(v) && v is None,
            Some(t) => if utf8_len(t) > 128 {
                r matches Err(e) && e is IssueOperation && e->IssueOperation_0@ == "invalid agent name"@
            } else {
                r matches Ok(v) && v matches Some(s) && s@ == t
            },
        },
{
    let normalized = match normalize_optional_text(name) {
        Some(t) => t,
        None => return Ok(None),
    };
    if utf8_longer_than(&normalized, MAX_AGENT_NAME_LENGTH) {
        return Err(issue_error("invalid agent name"));
    }
    Ok(Some(normalized))
}

/// Reject settings whose keys look like secrets.
pub fn validate_settings_keys(settings: &Vec<(String, FieldValue)>) -> (r: Result<(), KanbusError>)
    ensures
        r is Ok <==> forall|i: int| 0 <= i < settings@.len() ==> !secret_like_key(#[trigger] settings@[i].0@),
        r matches Err(e) ==> e is IssueOperation && e->IssueOperation_0@ == "agent settings must not contain secret-like keys"@,
{
    let mut i: usize = 0;
    while i < settings.len()
        invariant
            i <= settings@.len(),
            forall|k: int| 0 <= k < i ==> !secret_like_key(#[trigger] settings@[k].0@),
        decreases settings@.len() - i,
    {
        if regex_is_match("(?i)(api[_-]?key|token|secret|password|credential)", &settings[i].0) {
            return Err(issue_error("agent settings must not contain secret-like keys"));
        }
        i += 1;
    }
    Ok(())
}

/// Largest serialized agent metadata, in bytes.
pub const MAX_AGENT_METADATA_BYTES: usize = 2048;

/// Agent metadata as values: platform slug, model, name and settings.
pub type AgentDraft = (Seq<char>, Seq<char>, Option<Seq<char>>, Seq<(String, FieldValue)>);

/// What building agent metadata gives before its serialized size is
/// measured: an error, nothing (all inputs absent), or the metadata.
pub open spec fn agent_metadata_draft(
    platform: Option<Seq<char>>,
    model: Option<Seq<char>>,
    settings: Seq<(String, FieldValue)>,
    name: Option<Seq<char>>,
) -> Result<Option<AgentDraft>, Seq<char>> {
    let p = normalized_text(platform);
    let m = normalized_text(model);
    let n = normalized_text(name);
    if n matches Some(t) && utf8_len(t) > 128 {
        Err("invalid agent name"@)
    } else if p is None && m is None && settings.len() == 0 && n is None {
        Ok(None)
    } else if p is None || m is None {
        Err("agent metadata requires both platform and model"@)
    } else if exists|i: int| 0 <= i < settings.len() && secret_like_key(#[trigger] settings[i].0@) {
        Err("agent settings must not contain secret-like keys"@)
    } else if !platform_pattern(platform_slug(p->0)) {
        Err("invalid agent platform"@)
    } else {
        Ok(Some((platform_slug(p->0), m->0, n, settings)))
    }
}

/// Whether `agent` is the metadata that the draft describes.
pub open spec fn is_draft_agent(agent: AgentMetadata, draft: AgentDraft) -> bool {
    &&& agent.platform@ == draft.0
    &&& agent.model@ == draft.1
    &&& opt_text_view(agent.name) == draft.2
    &&& agent.settings@ == draft.3
}

/// What building agent metadata from the inputs gives, with
/// `serialized_size` measuring the metadata: the draft's error, nothing,
/// or the drafted metadata when its serialized size is at most 2048 bytes
/// (otherwise the size or serializer error).
pub open spec fn agent_outcome<F: FnOnce(&AgentMetadata) -> Result<usize, String>>(
    platform: Option<Seq<char>>,
    model: Option<Seq<char>>,
    settings: Seq<(String, FieldValue)>,
    name: Option<Seq<char>>,
    serialized_size: F,
    r: Result<Option<AgentMetadata>, KanbusError>,
) -> bool {
    match agent_metadata_draft(platform, model, settings, name) {
        Err(m) => r matches Err(e) && e is IssueOperation && e->IssueOperation_0@ == m,
        Ok(None) => r matches Ok(v) && v is None,
        Ok(Some(draft)) => match r {
            Ok(Some(agent)) => is_draft_agent(agent, draft) && exists|n: usize|
                call_ensures(serialized_size, (&agent,), Ok::<usize, String>(n)) && n <= 2048,
            Ok(None) => false,
            Err(e) => e is IssueOperation && exists|a: AgentMetadata, out: Result<usize, String>| {
                &&& is_draft_agent(a, draft)
                &&& call_ensures(serialized_size, (&a,), out)
                &&& match out {
                    Ok(n) => n > 2048 && e->IssueOperation_0@ == "agent metadata exceeds maximum size"@,
                    Err(msg) => e->IssueOperation_0@ == "invalid agent metadata: "@ + msg@,
                }
            },
        },
    }
}

/// Build validated agent metadata, or nothing when all inputs are absent.
/// `serialized_size` gives the length of the metadata serialized as JSON, or
/// the serializer's error; metadata over 2048 bytes is refused.
pub fn build_agent_metadata<F: FnOnce(&AgentMetadata) -> Result<usize, String>>(
    platform: Option<&str>,
    model: Option<&str>,
    settings: Vec<(String, FieldValue)>,
    name: Option<&str>,
    serialized_size: F,
) -> (r: Result<Option<AgentMetadata>, KanbusError>)
    requires
        keys_ascending(settings@),
        forall|a: &AgentMetadata| call_requires(serialized_size, (a,)),
    ensures
        r matches Ok(Some(agent)) ==> keys_ascending(agent.settings@),
        agent_outcome(opt_str_view(platform), opt_str_view(model), settings@, opt_str_view(name), serialized_size, r),
{
    let normalized_platform = normalize_optional_text(platform);
    let normalized_model = normalize_optional_text(model);
    let normalized_name = match normalize_agent_name(name) {
        Ok(n) => n,
        Err(e) => return Err(e),
    };
    if normalized_platform.is_none() && normalized_model.is_none() && settings.len() == 0
        && normalized_name.is_none() {
        return Ok(None);
    }
    let platform_value = match normalized_platform {
        Some(p) => p,
        None => return Err(issue_error("agent metadata requires both platform and model")),
    };
    let model_value = match normalized_model {
        Some(m) => m,
        None => return Err(issue_error("agent metadata requires both platform and model")),
    };
    match validate_settings_keys(&settings) {
        Ok(()) => {},
        Err(e) => return Err(e),
    }
    let slug = match normalize_platform(&platform_value) {
        Ok(s) => s,
        Err(e) => return Err(e),
    };
    let agent = AgentMetadata { platform: slug, model: model_value, name: normalized_name, settings };
    let measured = serialized_size(&agent);
    let ghost out = measured;
    match measured {
        Ok(n) => {
            if n > MAX_AGENT_METADATA_BYTES {
                return Err(issue_error("agent metadata exceeds maximum size"));
            }
        },
        Err(msg) => {
            let m = join3("invalid agent metadata: ", &msg, "");
            proof {
                reveal_strlit("");
                assert(m@ =~= "invalid agent metadata: "@ + msg@);
            }
            return Err(KanbusError::IssueOperation(m));
        },
    }
    Ok(Some(agent))
}

/// How a setting value is shown: text as it is, flags and null by name, any
/// other value as its JSON text.
pub open spec fn setting_value_text(value: FieldValue) -> Seq<char> {
    match value {
        FieldValue::Text(t) => t@,
        FieldValue::Flag(b) => if b {
            "true"@
        } else {
            "false"@
        },
        FieldValue::Null => "null"@,
        FieldValue::Raw(j) => j@,
    }
}

fn format_setting_value(value: &FieldValue) -> (r: String)
    ensures
        r@ == setting_value_text(*value),
{
    match value {
        FieldValue::Text(t) => t.clone(),
        FieldValue::Flag(b) => if *b {
            owned("true")
        } else {
            owned("false")
        },
        FieldValue::Null => owned("null"),
        FieldValue::Raw(j) => j.clone(),
    }
}

/// The compact display line of agent metadata:
/// `{name} / {platform} / {model}`, without the name when there is none.
pub open spec fn agent_display_text(agent: AgentMetadata) -> Seq<char> {
    let platform_model = agent.platform@ + " / "@ + agent.model@;
    match agent.name {
        Some(n) => n@ + " / "@ + platform_model,
        None => platform_model,
    }
}

/// Format agent metadata for compact CLI display.
pub fn format_agent_display_line(agent: &AgentMetadata) -> (r: String)
    ensures
        r@ == agent_display_text(*agent),
{
    let platform_model = join3(&agent.platform, " / ", &agent.model);
    match &agent.name {
        Some(n) => {
            let r = join3(n, " / ", &platform_model);
            assert(r@ =~= n@ + " / "@ + platform_model@);
            r
        },
        None => platform_model,
    }
}

/// The settings display: `key=value` pairs joined by ", ".
pub open spec fn settings_text(settings: Seq<(String, FieldValue)>) -> Seq<char>
    decreases settings.len(),
{
    if settings.len() == 0 {
        seq![]
    } else {
        let pair = settings.last().0@ + "="@ + setting_value_text(settings.last().1);
        if settings.len() == 1 {
            pair
        } else {
            settings_text(settings.drop_last()) + ", "@ + pair
        }
    }
}

/// Format agent settings for CLI display, in ascending key order; nothing
/// when there are none.
pub fn format_agent_settings_display(agent: &AgentMetadata) -> (r: Option<String>)
    requires
        keys_ascending(agent.settings@),
    ensures
        agent.settings@.len() == 0 ==> r is None,
        agent.settings@.len() > 0 ==> (r matches Some(s) && s@ == settings_text(agent.settings@)),
{
    if agent.settings.len() == 0 {
        return None;
    }
    let mut out = String::new();
    let mut i: usize = 0;
    while i < agent.settings.len()
        invariant
            i <= agent.settings@.len(),
            out@ == settings_text(agent.settings@.subrange(0, i as int)),
        decreases agent.settings@.len() - i,
    {
        let (key, value) = &agent.settings[i];
        assert(agent.settings@.subrange(0, i + 1).drop_last() =~= agent.settings@.subrange(0, i as int));
        let value_text = format_setting_value(value);
        if i > 0 {
            out.append(", ");
        }
        out.append(key);
        out.append("=");
        out.append(&value_text);
        assert(out@ =~= settings_text(agent.settings@.subrange(0, i + 1)));
        i += 1;
    }
    assert(agent.settings@.subrange(0, agent.settings@.len() as int) =~= agent.settings@);
    Some(out)
}

/// Platform, model and a non-empty session name are all present.
pub open spec fn provenance_complete(agent: Option<AgentMetadata>) -> bool {
    agent matches Some(m) && m.name matches Some(n) && n@.len() > 0
}

/// Return whether platform, model, and session name are all present.
pub fn agent_provenance_is_complete(agent: Option<&AgentMetadata>) -> (r: bool)
    ensures
        r == provenance_complete(opt_agent(agent)),
{
    match agent {
        Some(metadata) => match &metadata.name {
            Some(name) => name.unicode_len() > 0,
            None => false,
        },
        None => false,
    }
}

/// The provenance fields that are not set.
pub open spec fn missing_fields(agent: Option<AgentMetadata>) -> Seq<Seq<char>> {
    match agent {
        None => seq!["platform"@, "model"@, "name"@],
        Some(_) => if provenance_complete(agent) {
            seq![]
        } else {
            seq!["name"@]
        },
    }
}

/// List required provenance fields that are not set.
pub fn missing_agent_provenance_fields(agent: Option<&AgentMetadata>) -> (r: Vec<&'static str>)
    ensures
        r@.map_values(|s: &'static str| s@) == missing_fields(opt_agent(agent)),
{
    match agent {
        None => {
            let r = vec!["platform", "model", "name"];
            assert(r@.map_values(|s: &'static str| s@) =~= seq!["platform"@, "model"@, "name"@]);
            r
        },
        Some(metadata) => {
            if agent_provenance_is_complete(agent) {
                let r: Vec<&'static str> = Vec::new();
                assert(r@.map_values(|s: &'static str| s@) =~= Seq::<Seq<char>>::empty());
                r
            } else {
                let r = vec!["name"];
                assert(r@.map_values(|s: &'static str| s@) =~= seq!["name"@]);
                r
            }
        },
    }
}

/// Set agent metadata when the existing record is incomplete.
pub fn assign_agent_metadata_if_incomplete(
    existing: Option<AgentMetadata>,
    incoming: Option<AgentMetadata>,
) -> (r: Result<Option<AgentMetadata>, KanbusError>)
    ensures
        incoming is None ==> r == Ok::<Option<AgentMetadata>, KanbusError>(existing),
        incoming is Some && provenance_complete(existing) ==> (r matches Err(e) && e is IssueOperation
            && e->IssueOperation_0@ == "agent metadata is already set"@),
        incoming is Some && !provenance_complete(existing) ==> r == Ok::<Option<AgentMetadata>, KanbusError>(incoming),
{
    let incoming_metadata = match incoming {
        Some(m) => m,
        None => return Ok(existing),
    };
    if agent_provenance_is_complete(existing.as_ref()) {
        return Err(issue_error("agent metadata is already set"));
    }
    Ok(Some(incoming_metadata))
}

/// The follow-up command of the provenance warning.
pub open spec fn follow_up_command(
    issue_identifier: Seq<char>,
    agent: Option<AgentMetadata>,
    comment_id: Option<Seq<char>>,
) -> Seq<char> {
    let key = issue_key_text(issue_identifier, false);
    let base = match comment_id {
        Some(c) => "kbs comment update "@ + key + " "@ + c,
        None => "kbs update "@ + key,
    };
    let with_platform = if agent is None {
        base + " --agent-platform \"Cursor\""@ + " --agent-model \"Composer 2.5\""@
    } else {
        base
    };
    if provenance_complete(agent) {
        with_platform
    } else {
        with_platform + " --agent-name \"Cloud Agent\""@
    }
}

/// The names of the missing fields, joined by ", ".
pub open spec fn missing_text(agent: Option<AgentMetadata>) -> Seq<char> {
    match agent {
        None => "platform, model, name"@,
        Some(_) => if provenance_complete(agent) {
            seq![]
        } else {
            "name"@
        },
    }
}

/// The warning about incomplete provenance, with a one-step follow-up
/// command.
pub open spec fn provenance_warning_text(
    issue_identifier: Seq<char>,
    agent: Option<AgentMetadata>,
    comment_id: Option<Seq<char>>,
) -> Seq<char> {
    "WARNING: agent provenance is incomplete (missing: "@ + missing_text(agent)
        + ").\nSee CONTRIBUTING_AGENT.md (Agent provenance metadata).\nTo add it in one step:\n"@
        + follow_up_command(issue_identifier, agent, comment_id)
        + "\nTo skip tagging this time, re-run with --no-agent-provenance."@
}

/// Build a warning that includes a one-step follow-up command.
pub fn format_agent_provenance_warning(
    issue_identifier: &str,
    agent: Option<&AgentMetadata>,
    comment_id: Option<&str>,
) -> (r: String)
    ensures
        r@ == provenance_warning_text(
            issue_identifier@,
            opt_agent(agent),
            opt_str_view(comment_id),
        ),
{
    let ghost a = opt_agent(agent);
    let complete = agent_provenance_is_complete(agent);
    let issue_key = format_issue_key(issue_identifier, false);
    let mut command = match comment_id {
        Some(c) => {
            let mut s = join3("kbs comment update ", &issue_key, " ");
            s.append(c);
            s
        },
        None => {
            let mut s = owned("kbs update ");
            s.append(&issue_key);
            s
        },
    };
    if agent.is_none() {
        command.append(" --agent-platform \"Cursor\"");
        command.append(" --agent-model \"Composer 2.5\"");
    }
    if !complete {
        command.append(" --agent-name \"Cloud Agent\"");
    }
    assert(command@ == follow_up_command(issue_identifier@, a, opt_str_view(comment_id)));
    let missing = match agent {
        None => owned("platform, model, name"),
        Some(_) => if complete {
            String::new()
        } else {
            owned("name")
        },
    };
    let mut out = join3(
        "WARNING: agent provenance is incomplete (missing: ",
        &missing,
        ").\nSee CONTRIBUTING_AGENT.md (Agent provenance metadata).\nTo add it in one step:\n",
    );
    out.append(&command);
    out.append("\nTo skip tagging this time, re-run with --no-agent-provenance.");
    proof {
        if a is Some && provenance_complete(a) {
            assert(missing@ =~= missing_text(a));
        }
    }
    out
}

/// The incomplete-provenance warning to show, when one is needed: none when
/// silenced or when provenance is complete. Showing it is the caller's.
pub fn emit_agent_provenance_warning(
    issue_identifier: &str,
    agent: Option<&AgentMetadata>,
    comment_id: Option<&str>,
    silenced: bool,
) -> (r: Option<String>)
    ensures
        (silenced || provenance_complete(opt_agent(agent))) ==> r is None,
        !(silenced || provenance_complete(opt_agent(agent))) ==> (r matches Some(w) && w@
            == provenance_warning_text(
            issue_identifier@,
            opt_agent(agent),
            opt_str_view(comment_id),
        )),
{
    if silenced || agent_provenance_is_complete(agent) {
        return None;
    }
    Some(format_agent_provenance_warning(issue_identifier, agent, comment_id))
}

/// Reject agent metadata mutations in Beads compatibility mode.
pub fn reject_agent_metadata_in_beads_mode(agent_present: bool) -> (r: Result<(), KanbusError>)
    ensures
        r is Ok <==> !agent_present,
        r matches Err(e) ==> e is IssueOperation && e->IssueOperation_0@ == "agent metadata requires native Kanbus issue storage"@,
{
    if agent_present {
        return Err(issue_error("agent metadata requires native Kanbus issue storage"));
    }
    Ok(())
}

/// Comment author label: `{author} ({agent line}):`, or `{author}:`.
pub open spec fn author_label_text(author: Seq<char>, agent: Option<AgentMetadata>) -> Seq<char> {
    match agent {
        Some(m) => author + " ("@ + agent_display_text(m) + "):"@,
        None => author + ":"@,
    }
}

/// Format comment author label with optional agent suffix.
pub fn format_comment_author_label(author: &str, agent: Option<&AgentMetadata>) -> (r: String)
    ensures
        r@ == author_label_text(author@, opt_agent(agent)),
{
    match agent {
        Some(metadata) => {
            let line = format_agent_display_line(metadata);
            let mut s = join3(author, " (", &line);
            s.append("):");
            s
        },
        None => {
            let mut s = owned(author);
            s.append(":");
            s
        },
    }
}

/// The input that applies: the flag when it is not blank, else the
/// environment's.
pub open spec fn chosen_text(flag: Option<Seq<char>>, environment: Option<Seq<char>>) -> Option<Seq<char>> {
    if normalized_text(flag) is Some {
        flag
    } else {
        environment
    }
}

fn choose_text<'a>(flag: &'a Option<String>, environment: &'a Option<String>) -> (r: Option<&'a str>)
    ensures
        opt_str_view(r) == chosen_text(opt_text_view(*flag), opt_text_view(*environment)),
{
    let from_flag = match flag {
        Some(t) => normalize_optional_text(Some(t.as_str())).is_some(),
        None => false,
    };
    if from_flag {
        match flag {
            Some(t) => Some(t.as_str()),
            None => None,
        }
    } else {
        match environment {
            Some(t) => Some(t.as_str()),
            None => None,
        }
    }
}

/// Resolve agent metadata from command-line flags, with the environment's
/// values (KANBUS_AGENT_PLATFORM, KANBUS_AGENT_MODEL, KANBUS_AGENT_NAME,
/// KANBUS_AGENT_SETTINGS) for the flags left blank. The settings JSON is
/// read by `parse_settings_json`; `serialized_size` measures the metadata.
pub fn resolve_agent_metadata<F>(
    request: &AgentMetadataRequest,
    environment: &AgentMetadataRequest,
    serialized_size: F,
) -> (r: Result<Option<AgentMetadata>, KanbusError>)
    where
        F: FnOnce(&AgentMetadata) -> Result<usize, String>,
    requires
        forall|a: &AgentMetadata| call_requires(serialized_size, (a,)),
    ensures
        r matches Ok(Some(agent)) ==> keys_ascending(agent.settings@),
        ({
            let platform = chosen_text(opt_text_view(request.platform), opt_text_view(environment.platform));
            let model = chosen_text(opt_text_view(request.model), opt_text_view(environment.model));
            let name = chosen_text(opt_text_view(request.name), opt_text_view(environment.name));
            let settings_json = normalized_text(
                chosen_text(opt_text_view(request.settings_json), opt_text_view(environment.settings_json)),
            );
            if normalized_text(name) matches Some(t) && utf8_len(t) > 128 {
                r matches Err(e) && e is IssueOperation && e->IssueOperation_0@ == "invalid agent name"@
            } else {
                match settings_json {
                    None => agent_outcome(platform, model, seq![], name, serialized_size, r),
                    Some(j) => match json_text_value(j) {
                        Err(m) => r matches Err(e) && e is IssueOperation && e->IssueOperation_0@
                            == "invalid agent settings JSON: "@ + m,
                        Ok(JsonValue::Object(entries)) => exists|s: Seq<(String, FieldValue)>|
                            settings_hold(s, settings_map(entries@)) && #[trigger] agent_outcome(
                                platform,
                                model,
                                s,
                                name,
                                serialized_size,
                                r,
                            ),
                        Ok(_) => r matches Err(e) && e is IssueOperation && e->IssueOperation_0@
                            == "invalid agent settings JSON: expected object"@,
                    },
                }
            }
        }),
{
    let platform = choose_text(&request.platform, &environment.platform);
    let model = choose_text(&request.model, &environment.model);
    let name = choose_text(&request.name, &environment.name);
    if let Err(e) = normalize_agent_name(name) {
        return Err(e);
    }
    let settings_source = choose_text(&request.settings_json, &environment.settings_json);
    let settings = match parse_settings_json(settings_source) {
        Ok(s) => s,
        Err(e) => return Err(e),
    };
    let ghost parsed = settings@;
    let r = build_agent_metadata(platform, model, settings, name, serialized_size);
    assert(agent_outcome(opt_str_view(platform), opt_str_view(model), parsed, opt_str_view(name), serialized_size, r));
    proof {
        if parsed.len() == 0 {
            assert(parsed =~= Seq::<(String, FieldValue)>::empty());
        }
    }
    r
}

/// A settings value read from JSON: a string as text, a flag as a flag,
/// null as null, anything else as its compact JSON text.
pub open spec fn setting_of_json(f: FieldValue, v: JsonValue) -> bool {
    match v {
        JsonValue::Text(t) => f matches FieldValue::Text(s) && s@ == t@,
        JsonValue::Bool(b) => f == FieldValue::Flag(b),
        JsonValue::Null => f is Null,
        _ => f matches FieldValue::Raw(s) && s@ == compact_json(v),
    }
}

/// The settings a JSON object's entries give: a later entry replaces an
/// earlier one with the same key.
pub open spec fn settings_map(entries: Seq<(String, JsonValue)>) -> Map<Seq<char>, JsonValue>
    decreases entries.len(),
{
    if entries.len() == 0 {
        Map::empty()
    } else {
        settings_map(entries.drop_last()).insert(entries.last().0@, entries.last().1)
    }
}

/// `settings` hold exactly the entries of `m`, one per key, keys ascending.
pub open spec fn settings_hold(settings: Seq<(String, FieldValue)>, m: Map<Seq<char>, JsonValue>) -> bool {
    &&& keys_ascending(settings)
    &&& forall|i: int|
        0 <= i < settings.len() ==> m.contains_key(#[trigger] settings[i].0@) && setting_of_json(
            settings[i].1,
            m[settings[i].0@],
        )
    &&& forall|k: Seq<char>| #[trigger] m.contains_key(k) ==> exists|i: int| 0 <= i < settings.len() && settings[i].0@ == k
}

/// A JSON value as a settings value.
fn setting_value_of(v: JsonValue) -> (r: FieldValue)
    ensures
        setting_of_json(r, v),
{
    match v {
        JsonValue::Text(t) => FieldValue::Text(t),
        JsonValue::Bool(b) => FieldValue::Flag(b),
        JsonValue::Null => FieldValue::Null,
        other => FieldValue::Raw(compact_json_text(&other)),
    }
}

/// Put a setting into settings kept in ascending key order, replacing the
/// value of the setting with the same key.
fn insert_setting(settings: &mut Vec<(String, FieldValue)>, key: String, value: FieldValue)
    requires
        keys_ascending(old(settings)@),
    ensures
        keys_ascending(final(settings)@),
        exists|i: int| 0 <= i < final(settings)@.len() && (#[trigger] final(settings)@[i]) == (key, value),
        forall|i: int|
            0 <= i < final(settings)@.len() ==> (#[trigger] final(settings)@[i]) == (key, value) || (
            final(settings)@[i].0@ != key@ && old(settings)@.contains(final(settings)@[i])),
        forall|j: int|
            0 <= j < old(settings)@.len() && (#[trigger] old(settings)@[j]).0@ != key@
                ==> final(settings)@.contains(old(settings)@[j]),
{
    let ghost before = settings@;
    let mut j: usize = 0;
    while j < settings.len() && str_less(settings[j].0.as_str(), key.as_str())
        invariant
            settings@ == before,
            j <= before.len(),
            forall|a: int| 0 <= a < j ==> str_lt((#[trigger] before[a]).0@, key@),
        decreases before.len() - j,
    {
        j += 1;
    }
    let replace = j < settings.len() && equals(settings[j].0.as_str(), key.as_str());
    let ghost entry = (key, value);
    if replace {
        settings.remove(j);
    }
    settings.insert(j, (key, value));
    proof {
        let after = settings@;
        if !replace && j < before.len() {
            lemma_str_lt_total(key@, before[j as int].0@);
        }
        assert forall|a: int, b: int| 0 <= a < b < after.len() implies str_lt(
            (#[trigger] after[a]).0@,
            (#[trigger] after[b]).0@,
        ) by {
            if replace {
                assert(after =~= before.update(j as int, entry));
                if b == j {
                    assert(after[a] == before[a]);
                } else if a == j {
                    assert(after[b] == before[b]);
                    assert(str_lt(before[j as int].0@, before[b].0@));
                }
            } else {
                assert(after =~= before.insert(j as int, entry));
                if a < j && b == j {
                } else if a == j {
                    assert(after[b] == before[b - 1]);
                    if b - 1 > j {
                        assert(str_lt(before[j as int].0@, before[b - 1].0@));
                        lemma_str_lt_transitive(key@, before[j as int].0@, before[b - 1].0@);
                    }
                } else if a < j && b > j {
                    assert(after[b] == before[b - 1]);
                    if b - 1 > j {
                        assert(str_lt(before[j as int].0@, before[b - 1].0@));
                        lemma_str_lt_transitive(key@, before[j as int].0@, before[b - 1].0@);
                    }
                    lemma_str_lt_transitive(before[a].0@, key@, after[b].0@);
                } else if a > j {
                    assert(after[a] == before[a - 1]);
                    assert(after[b] == before[b - 1]);
                } else {
                    assert(after[a] == before[a]);
                    assert(after[b] == before[b]);
                }
            }
        }
        assert(after[j as int] == entry);
        assert forall|i: int| 0 <= i < after.len() implies (#[trigger] after[i]) == entry || (after[i].0@ != key@
            && before.contains(after[i])) by {
            if i != j {
                if replace {
                    assert(after[i] == before[i]);
                    if i < j {
                        assert(str_lt(before[i].0@, key@));
                    } else {
                        assert(str_lt(before[j as int].0@, before[i].0@));
                    }
                } else if i < j {
                    assert(after[i] == before[i]);
                } else {
                    assert(after[i] == before[i - 1]);
                    if i - 1 > j {
                        lemma_str_lt_transitive(key@, before[j as int].0@, before[i - 1].0@);
                    }
                }
            }
        }
        assert forall|b: int| 0 <= b < before.len() && (#[trigger] before[b]).0@ != key@ implies after.contains(
            before[b],
        ) by {
            if replace {
                assert(b != j);
                assert(after[b] == before[b]);
            } else if b < j {
                assert(after[b] == before[b]);
            } else {
                assert(after[b + 1] == before[b]);
            }
        }
    }
}

/// Settings from what parsing the settings JSON gave: an object's entries,
/// in ascending key order, a later entry replacing an earlier one with the
/// same key; a parse error or any other value is refused.
pub fn settings_from_json(parsed: Result<JsonValue, String>) -> (r: Result<Vec<(String, FieldValue)>, KanbusError>)
    ensures
        match parsed {
            Err(m) => r matches Err(e) && e is IssueOperation && e->IssueOperation_0@ == "invalid agent settings JSON: "@
                + m@,
            Ok(JsonValue::Object(entries)) => r matches Ok(s) && settings_hold(s@, settings_map(entries@)),
            Ok(_) => r matches Err(e) && e is IssueOperation && e->IssueOperation_0@
                == "invalid agent settings JSON: expected object"@,
        },
{
    let entries = match parsed {
        Err(m) => {
            let mut text = owned("invalid agent settings JSON: ");
            text.append(m.as_str());
            return Err(KanbusError::IssueOperation(text));
        },
        Ok(JsonValue::Object(entries)) => entries,
        Ok(_) => {
            return Err(issue_error("invalid agent settings JSON: expected object"));
        },
    };
    let ghost all = entries@;
    let mut rest = entries;
    let n = rest.len();
    let mut settings: Vec<(String, FieldValue)> = Vec::new();
    let mut i: usize = 0;
    assert(all.take(0) =~= Seq::<(String, JsonValue)>::empty());
    while i < n
        invariant
            n == all.len(),
            i <= n,
            rest@ == all.subrange(i as int, n as int),
            settings_hold(settings@, settings_map(all.take(i as int))),
        decreases n - i,
    {
        let (key, v) = rest.remove(0);
        assert(rest@ =~= all.subrange(i + 1, n as int));
        let ghost before = settings@;
        let ghost m0 = settings_map(all.take(i as int));
        let ghost k = key@;
        let value = setting_value_of(v);
        let ghost entry = (key, value);
        insert_setting(&mut settings, key, value);
        proof {
            let t = all.take(i + 1);
            assert(t.drop_last() =~= all.take(i as int));
            assert(t.last() == all[i as int]);
            let m1 = settings_map(t);
            assert(m1 == m0.insert(k, v));
            let after = settings@;
            assert forall|a: int| 0 <= a < after.len() implies m1.contains_key(#[trigger] after[a].0@) && setting_of_json(
                after[a].1,
                m1[after[a].0@],
            ) by {
                if after[a] != entry {
                    let b = choose|b: int| 0 <= b < before.len() && before[b] == after[a];
                    assert(m0.contains_key(before[b].0@));
                }
            }
            assert forall|q: Seq<char>| #[trigger] m1.contains_key(q) implies exists|a: int|
                0 <= a < after.len() && after[a].0@ == q by {
                if q == k {
                    let a = choose|a: int| 0 <= a < after.len() && after[a] == entry;
                    assert(after[a].0@ == q);
                } else {
                    assert(m0.contains_key(q));
                    let b = choose|b: int| 0 <= b < before.len() && before[b].0@ == q;
                    assert(before[b].0@ != k);
                    assert(after.contains(before[b]));
                    let a = choose|a: int| 0 <= a < after.len() && after[a] == before[b];
                    assert(after[a].0@ == q);
                }
            }
        }
        i += 1;
    }
    assert(all.take(n as int) =~= all);
    Ok(settings)
}

/// Parse the agent settings JSON: none at all, or blank, gives no settings;
/// otherwise the text must hold a JSON object, whose entries become the
/// settings in ascending key order.
pub fn parse_settings_json(settings_json: Option<&str>) -> (r: Result<Vec<(String, FieldValue)>, KanbusError>)
    ensures
        match normalized_text(opt_str_view(settings_json)) {
            None => r matches Ok(s) && s@.len() == 0,
            Some(t) => match json_text_value(t) {
                Err(m) => r matches Err(e) && e is IssueOperation && e->IssueOperation_0@
                    == "invalid agent settings JSON: "@ + m,
                Ok(JsonValue::Object(entries)) => r matches Ok(s) && settings_hold(s@, settings_map(entries@)),
                Ok(_) => r matches Err(e) && e is IssueOperation && e->IssueOperation_0@
                    == "invalid agent settings JSON: expected object"@,
            },
        },
{
    match normalize_optional_text(settings_json) {
        None => Ok(Vec::new()),
        Some(normalized) => settings_from_json(json_text_value_of(normalized.as_str())),
    }
}

} // verus!
