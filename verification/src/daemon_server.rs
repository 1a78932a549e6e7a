//! Daemon request handling.

use vstd::prelude::*;
use vstd::string::*;

use crate::daemon_protocol::{
    compatibility_error, validate_protocol_compatibility, ErrorEnvelope, PayloadValue, RequestEnvelope,
    ResponseEnvelope, PROTOCOL_VERSION,
};
use crate::error::KanbusError;
use crate::models::IssueData;
use crate::text::{equals, owned};

verus! {

/// An ok response with one result entry.
pub open spec fn ok_response(r: ResponseEnvelope, request_id: Seq<char>, key: Seq<char>) -> bool {
    &&& r.protocol_version@ == PROTOCOL_VERSION@
    &&& r.request_id@ == request_id
    &&& r.status@ == "ok"@
    &&& r.error is None
    &&& r.result matches Some(entries) && entries@.len() == 1 && entries@[0].0@ == key
}

/// An error response with the given code and message.
pub open spec fn error_response(r: ResponseEnvelope, request_id: Seq<char>, code: Seq<char>, message: Seq<char>) -> bool {
    &&& r.protocol_version@ == PROTOCOL_VERSION@
    &&& r.request_id@ == request_id
    &&& r.status@ == "error"@
    &&& r.result is None
    &&& r.error matches Some(e) && e.code@ == code && e.message@ == message
}

fn respond_ok(request_id: String, key: &str, value: PayloadValue) -> (r: ResponseEnvelope)
    ensures
        ok_response(r, request_id@, key@),
        r.result matches Some(entries) && entries@[0].1 == value,
{
    let mut entries: Vec<(String, PayloadValue)> = Vec::new();
    entries.push((owned(key), value));
    ResponseEnvelope {
        protocol_version: owned(PROTOCOL_VERSION),
        request_id,
        status: owned("ok"),
        result: Some(entries),
        error: None,
    }
}

fn respond_error(
    request_id: String,
    code: &str,
    message: String,
    details: Vec<(String, PayloadValue)>,
) -> (r: ResponseEnvelope)
    ensures
        error_response(r, request_id@, code@, message@),
        r.error matches Some(e) && e.details == details,
{
    ResponseEnvelope {
        protocol_version: owned(PROTOCOL_VERSION),
        request_id,
        status: owned("error"),
        result: None,
        error: Some(ErrorEnvelope { code: owned(code), message, details }),
    }
}

/// Answer one daemon request; the flag tells the daemon to stop. Listing the
/// index is the caller's `load_index`, asked only for that action.
pub fn handle_request<F: FnOnce() -> Result<Vec<IssueData>, KanbusError>>(
    request: RequestEnvelope,
    load_index: F,
) -> (r: (ResponseEnvelope, bool))
    requires
        call_requires(load_index, ()),
    ensures
        ({
            let id = request.request_id@;
            let action = request.action@;
            match compatibility_error(request.protocol_version@, PROTOCOL_VERSION@) {
                Some(m) => !r.1 && error_response(
                    r.0,
                    id,
                    if m == "protocol version unsupported"@ {
                        "protocol_version_unsupported"@
                    } else {
                        "protocol_version_mismatch"@
                    },
                    m,
                ),
                None => if action == "ping"@ {
                    !r.1 && ok_response(r.0, id, "status"@) && (r.0.result matches Some(e) && (e@[0].1 matches PayloadValue::Text(t) && t@ == "ok"@))
                } else if action == "shutdown"@ {
                    r.1 && ok_response(r.0, id, "status"@) && (r.0.result matches Some(e) && (e@[0].1 matches PayloadValue::Text(t) && t@ == "stopping"@))
                } else if action == "index.list"@ {
                    !r.1 && exists|loaded: Result<Vec<IssueData>, KanbusError>|
                        #[trigger] call_ensures(load_index, (), loaded) && match loaded {
                            Ok(issues) => ok_response(r.0, id, "issues"@) && (r.0.result matches Some(e) && e@[0].1 == PayloadValue::Issues(issues)),
                            Err(err) => error_response(r.0, id, "internal_error"@, err.message_view()),
                        }
                } else {
                    !r.1 && error_response(r.0, id, "unknown_action"@, "unknown action"@) && (r.0.error matches Some(e) && e.details@.len() == 1
                        && e.details@[0].0@ == "action"@ && (e.details@[0].1 matches PayloadValue::Text(t) && t@ == action))
                },
            }
        }),
{
    let RequestEnvelope { protocol_version, request_id, action, payload: _ } = request;
    if let Err(error) = validate_protocol_compatibility(&protocol_version, PROTOCOL_VERSION) {
        let message = error.to_message();
        let code = if equals(&message, "protocol version unsupported") {
            "protocol_version_unsupported"
        } else {
            "protocol_version_mismatch"
        };
        return (respond_error(request_id, code, message, Vec::new()), false);
    }
    if equals(&action, "ping") {
        return (respond_ok(request_id, "status", PayloadValue::Text(owned("ok"))), false);
    }
    if equals(&action, "shutdown") {
        return (respond_ok(request_id, "status", PayloadValue::Text(owned("stopping"))), true);
    }
    if equals(&action, "index.list") {
        let loaded = load_index();
        return match loaded {
            Ok(issues) => (respond_ok(request_id, "issues", PayloadValue::Issues(issues)), false),
            Err(error) => (respond_error(request_id, "internal_error", error.to_message(), Vec::new()), false),
        };
    }
    let mut details: Vec<(String, PayloadValue)> = Vec::new();
    details.push((owned("action"), PayloadValue::Text(action)));
    (respond_error(request_id, "unknown_action", owned("unknown action"), details), false)
}

} // verus!
