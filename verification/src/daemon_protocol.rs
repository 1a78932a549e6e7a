//! Daemon protocol version checks.

use vstd::prelude::*;
use vstd::string::*;

use crate::error::KanbusError;
use crate::text::{find_char, first_pos, lemma_first_pos, owned, substring};

verus! {

/// Current protocol version supported by the daemon.
pub const PROTOCOL_VERSION: &'static str = "1.0";

/// Value of a decimal digit character.
pub open spec fn digit_value(c: char) -> nat {
    ((c as u32) - ('0' as u32)) as nat
}

/// Every character is an ASCII digit.
pub open spec fn all_digits(s: Seq<char>) -> bool {
    forall|i: int| 0 <= i < s.len() ==> '0' <= #[trigger] s[i] <= '9'
}

/// Value of a string of decimal digits.
pub open spec fn decimal_value(s: Seq<char>) -> nat
    decreases s.len(),
{
    if s.len() == 0 {
        0
    } else {
        decimal_value(s.drop_last()) * 10 + digit_value(s.last())
    }
}

/// The digits of an unsigned number as `str::parse` reads them: an
/// optional '+' followed by at least one ASCII digit.
pub open spec fn unsigned_digits(s: Seq<char>) -> Seq<char> {
    if s.len() > 0 && s[0] == '+' {
        s.drop_first()
    } else {
        s
    }
}

/// The `u32` that `s` denotes, if any.
pub open spec fn parse_u32_text(s: Seq<char>) -> Option<u32> {
    let d = unsigned_digits(s);
    if d.len() > 0 && all_digits(d) && decimal_value(d) <= u32::MAX {
        Some(decimal_value(d) as u32)
    } else {
        None
    }
}

/// Parse an unsigned 32-bit decimal number.
pub fn parse_u32(s: &str) -> (r: Option<u32>)
    ensures
        r == parse_u32_text(s@),
{
    let n = s.unicode_len();
    let mut i: usize = 0;
    if n > 0 && s.get_char(0) == '+' {
        i = 1;
    }
    let ghost d = unsigned_digits(s@);
    assert(d =~= s@.subrange(i as int, n as int));
    if i >= n {
        return None;
    }
    let start = i;
    let mut value: u64 = 0;
    while i < n
        invariant
            n == s@.len(),
            start <= i <= n,
            d == s@.subrange(start as int, n as int),
            d == unsigned_digits(s@),
            all_digits(s@.subrange(start as int, i as int)),
            value == decimal_value(s@.subrange(start as int, i as int)),
            value <= u32::MAX,
        decreases n - i,
    {
        let c = s.get_char(i);
        if !('0' <= c && c <= '9') {
            assert(d[i - start] == c);
            return None;
        }
        let digit = (c as u32 - '0' as u32) as u64;
        assert(s@.subrange(start as int, i + 1).drop_last() =~= s@.subrange(start as int, i as int));
        assert(s@.subrange(start as int, i + 1).last() == c);
        assert(all_digits(s@.subrange(start as int, i + 1)));
        value = value * 10 + digit;
        if value > 0xffff_ffff {
            proof {
                assert(d.subrange(0, i + 1 - start) =~= s@.subrange(start as int, i + 1));
                lemma_decimal_prefix_bound(d, (i + 1 - start) as int);
            }
            return None;
        }
        i += 1;
    }
    assert(s@.subrange(start as int, n as int) == d);
    Some(value as u32)
}

proof fn lemma_decimal_prefix_bound(d: Seq<char>, k: int)
    requires
        0 <= k <= d.len(),
        all_digits(d.subrange(0, k)),
    ensures
        all_digits(d) ==> decimal_value(d.subrange(0, k)) <= decimal_value(d),
    decreases d.len() - k,
{
    if k < d.len() && all_digits(d) {
        assert(all_digits(d.subrange(0, k + 1)));
        lemma_decimal_prefix_bound(d, k + 1);
        assert(d.subrange(0, k + 1).drop_last() =~= d.subrange(0, k));
    }
    if k == d.len() {
        assert(d.subrange(0, k) =~= d);
    }
}

/// The major and minor parts of a version "major.minor" (exactly one '.').
pub open spec fn version_parts(v: Seq<char>) -> Option<(Seq<char>, Seq<char>)> {
    let p = first_pos(v, '.');
    if p < 0 {
        None
    } else {
        let rest = v.subrange(p + 1, v.len() as int);
        if first_pos(rest, '.') >= 0 {
            None
        } else {
            Some((v.subrange(0, p), rest))
        }
    }
}

/// The version numbers that `v` denotes, if any.
pub open spec fn parse_version_text(v: Seq<char>) -> Option<(u32, u32)> {
    match version_parts(v) {
        Some((a, b)) => match (parse_u32_text(a), parse_u32_text(b)) {
            (Some(x), Some(y)) => Some((x, y)),
            _ => None,
        },
        None => None,
    }
}

fn protocol_error(message: &str) -> (e: KanbusError)
    ensures
        e == KanbusError::ProtocolError(e->ProtocolError_0),
        e->ProtocolError_0@ == message@,
{
    KanbusError::ProtocolError(owned(message))
}

/// Parse a protocol version "major.minor".
pub fn parse_version(version: &str) -> (r: Result<(u32, u32), KanbusError>)
    ensures
        match parse_version_text(version@) {
            Some(v) => r == Ok::<(u32, u32), KanbusError>(v),
            None => r matches Err(e) && e == KanbusError::ProtocolError(e->ProtocolError_0)
                && e->ProtocolError_0@ == "invalid protocol version"@,
        },
{
    proof {
        reveal_strlit("invalid protocol version");
        lemma_first_pos(version@, '.');
    }
    let n = version.unicode_len();
    let p = match find_char(version, '.') {
        Some(p) => p,
        None => return Err(protocol_error("invalid protocol version")),
    };
    let major = substring(version, 0, p);
    let minor = substring(version, p + 1, n);
    if find_char(&minor, '.').is_some() {
        return Err(protocol_error("invalid protocol version"));
    }
    let a = match parse_u32(&major) {
        Some(a) => a,
        None => return Err(protocol_error("invalid protocol version")),
    };
    let b = match parse_u32(&minor) {
        Some(b) => b,
        None => return Err(protocol_error("invalid protocol version")),
    };
    Ok((a, b))
}

/// The message of the incompatibility between two protocol versions, if
/// they are incompatible.
pub open spec fn compatibility_error(client: Seq<char>, daemon: Seq<char>) -> Option<Seq<char>> {
    match (parse_version_text(client), parse_version_text(daemon)) {
        (Some(c), Some(d)) => if c.0 != d.0 {
            Some("protocol version mismatch"@)
        } else if c.1 > d.1 {
            Some("protocol version unsupported"@)
        } else {
            None
        },
        _ => Some("invalid protocol version"@),
    }
}

/// Validate protocol version compatibility: the major versions must agree,
/// and the client's minor version must not exceed the daemon's.
pub fn validate_protocol_compatibility(client_version: &str, daemon_version: &str) -> (r: Result<(), KanbusError>)
    ensures
        match (parse_version_text(client_version@), parse_version_text(daemon_version@)) {
            (Some(c), Some(d)) => if c.0 != d.0 {
                r matches Err(e) && e is ProtocolError && e->ProtocolError_0@ == "protocol version mismatch"@
            } else if c.1 > d.1 {
                r matches Err(e) && e is ProtocolError && e->ProtocolError_0@ == "protocol version unsupported"@
            } else {
                r is Ok
            },
            _ => r matches Err(e) && e is ProtocolError && e->ProtocolError_0@ == "invalid protocol version"@,
        },
        match compatibility_error(client_version@, daemon_version@) {
            Some(m) => r matches Err(e) && e is ProtocolError && e->ProtocolError_0@ == m,
            None => r is Ok,
        },
{
    let (client_major, client_minor) = match parse_version(client_version) {
        Ok(v) => v,
        Err(e) => return Err(e),
    };
    let (daemon_major, daemon_minor) = match parse_version(daemon_version) {
        Ok(v) => v,
        Err(e) => return Err(e),
    };
    if client_major != daemon_major {
        proof {
            reveal_strlit("protocol version mismatch");
        }
        return Err(protocol_error("protocol version mismatch"));
    }
    if client_minor > daemon_minor {
        proof {
            reveal_strlit("protocol version unsupported");
        }
        return Err(protocol_error("protocol version unsupported"));
    }
    Ok(())
}

/// A payload or detail value.
pub enum PayloadValue {
    /// A text.
    Text(String),
    /// A list of issues.
    Issues(Vec<crate::models::IssueData>),
}

/// Client request envelope for daemon IPC.
pub struct RequestEnvelope {
    /// Protocol version string.
    pub protocol_version: String,
    /// Client request identifier.
    pub request_id: String,
    /// Requested action name.
    pub action: String,
    /// Action payload data.
    pub payload: Vec<(String, PayloadValue)>,
}

/// Structured error payload for daemon responses.
pub struct ErrorEnvelope {
    /// Machine-readable error code.
    pub code: String,
    /// Human-readable error summary.
    pub message: String,
    /// Structured error details.
    pub details: Vec<(String, PayloadValue)>,
}

/// Daemon response envelope for IPC.
pub struct ResponseEnvelope {
    /// Protocol version string.
    pub protocol_version: String,
    /// Echo of the client request ID.
    pub request_id: String,
    /// Status string ("ok" or "error").
    pub status: String,
    /// Result payload when successful.
    pub result: Option<Vec<(String, PayloadValue)>>,
    /// Error payload when failed.
    pub error: Option<ErrorEnvelope>,
}

} // verus!
