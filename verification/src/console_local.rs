//! Local console server decisions: port conflicts, the auth bootstrap
//! payload, and payload fingerprints.

use vstd::prelude::*;
use vstd::string::*;

use crate::text::{decimal, decimal_text, owned};

verus! {

/// What to do when the console port is taken.
#[derive(Debug, Clone, PartialEq, Eq)]
pub enum PortConflictAction {
    /// Retry on the given fallback port.
    RetryWithFallback(u16),
    /// Give up with a message.
    Exit { message: String },
}

/// Message when the port is taken and no prompt may be shown.
pub open spec fn non_interactive_message(port: u16, fallback: u16) -> Seq<char> {
    "Port "@ + decimal_text(port as nat)
        + " is in use. Non-interactive mode will not auto-select another port. Re-run with CONSOLE_PORT="@
        + decimal_text(fallback as nat) + " or free the requested port."@
}

/// Message when the user declines the fallback port.
pub open spec fn declined_message(port: u16) -> Seq<char> {
    "Port "@ + decimal_text(port as nat) + " is in use. Start aborted by user."@
}

/// Decide what to do when `desired_port` is taken: the fallback is the next
/// port; without a terminal the start stops, otherwise the prompt decides.
pub fn determine_port_conflict_action<F: FnOnce(u16, u16) -> bool>(
    desired_port: u16,
    interactive: bool,
    prompt_accepts_fallback: F,
) -> (r: Result<PortConflictAction, String>)
    requires
        desired_port < u16::MAX && interactive ==> call_requires(prompt_accepts_fallback, (desired_port, (desired_port + 1) as u16)),
    ensures
        desired_port == u16::MAX ==> (r matches Err(m) && m@ == "No valid fallback port is available."@),
        desired_port < u16::MAX && !interactive ==> (r matches Ok(PortConflictAction::Exit { message }) && message@
            == non_interactive_message(desired_port, (desired_port + 1) as u16)),
        desired_port < u16::MAX && interactive ==> (match r {
            Ok(PortConflictAction::RetryWithFallback(p)) => p == desired_port + 1 && call_ensures(
                prompt_accepts_fallback,
                (desired_port, (desired_port + 1) as u16),
                true,
            ),
            Ok(PortConflictAction::Exit { message }) => message@ == declined_message(desired_port) && call_ensures(
                prompt_accepts_fallback,
                (desired_port, (desired_port + 1) as u16),
                false,
            ),
            Err(_) => false,
        }),
{
    let fallback_port = match desired_port.checked_add(1) {
        Some(p) => p,
        None => return Err(owned("No valid fallback port is available.")),
    };
    if !interactive {
        let mut message = owned("Port ");
        message.append(&decimal(desired_port as u64));
        message.append(
            " is in use. Non-interactive mode will not auto-select another port. Re-run with CONSOLE_PORT=",
        );
        message.append(&decimal(fallback_port as u64));
        message.append(" or free the requested port.");
        return Ok(PortConflictAction::Exit { message });
    }
    if prompt_accepts_fallback(desired_port, fallback_port) {
        Ok(PortConflictAction::RetryWithFallback(fallback_port))
    } else {
        let mut message = owned("Port ");
        message.append(&decimal(desired_port as u64));
        message.append(" is in use. Start aborted by user.");
        Ok(PortConflictAction::Exit { message })
    }
}

/// Authentication bootstrap payload of the local console.
pub struct AuthBootstrapResponse {
    pub mode: &'static str,
    pub cognito_domain_url: Option<String>,
    pub cognito_client_id: Option<String>,
    pub cognito_redirect_uri: Option<String>,
    pub cognito_logout_uri: Option<String>,
    pub cognito_issuer: Option<String>,
    pub identity_pool_id: Option<String>,
    pub tenant_account_claim_key: String,
    pub tenant_project_claim_key: String,
    pub account: Option<String>,
    pub project: Option<String>,
}

/// The local console's bootstrap: no authentication, the tenant claim keys,
/// and the tenant it was asked for.
pub fn build_local_auth_bootstrap(account: Option<String>, project: Option<String>) -> (r: AuthBootstrapResponse)
    ensures
        r.mode@ == "none"@,
        r.cognito_domain_url is None,
        r.cognito_client_id is None,
        r.cognito_redirect_uri is None,
        r.cognito_logout_uri is None,
        r.cognito_issuer is None,
        r.identity_pool_id is None,
        r.tenant_account_claim_key@ == "custom:account"@,
        r.tenant_project_claim_key@ == "custom:project"@,
        r.account == account,
        r.project == project,
{
    AuthBootstrapResponse {
        mode: "none",
        cognito_domain_url: None,
        cognito_client_id: None,
        cognito_redirect_uri: None,
        cognito_logout_uri: None,
        cognito_issuer: None,
        identity_pool_id: None,
        tenant_account_claim_key: owned("custom:account"),
        tenant_project_claim_key: owned("custom:project"),
        account,
        project,
    }
}

/// The hash that `std::hash::DefaultHasher::new()` gives a byte slice. The
/// standard library documents only that hashers made by `new` agree with
/// each other; the algorithm, and so the value, may differ between Rust
/// releases and platforms.
pub uninterp spec fn default_slice_hash(bytes: Seq<u8>) -> u64;

/// Hash a byte slice with a fresh `DefaultHasher` (`DefaultHasher::new`,
/// `Hash::hash`, `Hasher::finish`). A hasher made by `new` starts from fixed
/// keys, so the same bytes hash alike every time within one build; the
/// value itself is left unnamed beyond that.
#[verifier::external_body]
fn default_hasher_hash(bytes: &[u8]) -> (r: u64)
    ensures
        r == default_slice_hash(bytes@),
{
    let mut hasher = std::collections::hash_map::DefaultHasher::new();
    std::hash::Hash::hash(bytes, &mut hasher);
    std::hash::Hasher::finish(&hasher)
}

/// Hash a byte slice with a fresh default hasher.
pub fn hash_bytes(bytes: &[u8]) -> (r: u64)
    ensures
        r == default_slice_hash(bytes@),
{
    default_hasher_hash(bytes)
}

/// Hash the UTF-8 bytes of a text.
pub fn hash_payload(payload: &str) -> (r: u64)
    ensures
        r == default_slice_hash(payload.spec_bytes()),
{
    hash_bytes(payload.as_bytes())
}

} // verus!
