use vstd::prelude::*;
use vstd::string::StringExecFns;

use crate::engine::{fresh, FallbackPolicy, Forwarding};
use crate::mode::{candidates_spec, host_spec, ProxyMode, Upstream};

verus! {

#[verifier::external_type_specification]
#[verifier::external_body]
pub struct ExUri(http::Uri);

#[verifier::external_type_specification]
#[verifier::external_body]
pub struct ExInvalidUri(http::uri::InvalidUri);

/// The host name whose traffic is redirected here: `s.optifine.net`.
pub open spec fn spoofed_host_spec() -> Seq<u8> {
    seq![115u8, 46u8, 111u8, 112u8, 116u8, 105u8, 102u8, 105u8, 110u8, 101u8, 46u8, 110u8, 101u8, 116u8]
}

/// The loopback address the spoofed host is mapped to: `127.0.0.1`.
pub open spec fn local_address_spec() -> Seq<u8> {
    seq![49u8, 50u8, 55u8, 46u8, 48u8, 46u8, 48u8, 46u8, 49u8]
}

/// The spoofed host name, as bytes.
pub fn spoofed_host() -> (r: Vec<u8>)
    ensures
        r@ == spoofed_host_spec(),
{
    let r: Vec<u8> = vec![115u8, 46u8, 111u8, 112u8, 116u8, 105u8, 102u8, 105u8, 110u8, 101u8, 46u8, 110u8, 101u8, 116u8];
    assert(r@ =~= spoofed_host_spec());
    r
}

/// The loopback address, as bytes.
pub fn local_address() -> (r: Vec<u8>)
    ensures
        r@ == local_address_spec(),
{
    let r: Vec<u8> = vec![49u8, 50u8, 55u8, 46u8, 48u8, 46u8, 48u8, 46u8, 49u8];
    assert(r@ =~= local_address_spec());
    r
}

/// A byte with ASCII upper-case letters mapped to lower case.
pub open spec fn ascii_lower(b: u8) -> u8 {
    if 65u8 <= b && b <= 90u8 {
        (b + 32) as u8
    } else {
        b
    }
}

/// An ASCII decimal digit.
pub open spec fn is_digit(b: u8) -> bool {
    48u8 <= b && b <= 57u8
}

/// An inbound authority (the `Host` of a request) names the spoofed host,
/// in any ASCII case, alone or followed by `:` and a decimal port.
pub open spec fn is_spoofed_authority(authority: Seq<u8>) -> bool {
    let n = spoofed_host_spec().len() as int;
    &&& n <= authority.len()
    &&& forall|i: int| 0 <= i < n ==> ascii_lower(#[trigger] authority[i]) == spoofed_host_spec()[i]
    &&& (authority.len() == n || (authority[n] == 58u8 && n + 1 < authority.len() && forall|i: int|
        n < i < authority.len() ==> is_digit(#[trigger] authority[i])))
}

/// Whether an inbound request is for the spoofed host; requests for any
/// other host are never forwarded.
pub fn is_spoofed(authority: &[u8]) -> (r: bool)
    ensures
        r == is_spoofed_authority(authority@),
{
    let host = spoofed_host();
    let n = host.len();
    let len = authority.len();
    if len < n {
        return false;
    }
    let mut i: usize = 0;
    while i < n
        invariant
            n == host@.len(),
            n <= len,
            len == authority@.len(),
            host@ == spoofed_host_spec(),
            i <= n,
            forall|t: int| 0 <= t < i ==> ascii_lower(#[trigger] authority@[t]) == host@[t],
        decreases n - i,
    {
        let b = authority[i];
        let lower: u8 = if 65u8 <= b && b <= 90u8 {
            b + 32
        } else {
            b
        };
        if lower != host[i] {
            assert(ascii_lower(authority@[i as int]) != spoofed_host_spec()[i as int]);
            assert(!is_spoofed_authority(authority@)) by {
                assert(0 <= i < spoofed_host_spec().len());
            }
            return false;
        }
        i += 1;
    }
    if len == n {
        return true;
    }
    if authority[n] != 58u8 || len == n + 1 {
        return false;
    }
    let mut j: usize = n + 1;
    while j < len
        invariant
            n < len,
            n == spoofed_host_spec().len(),
            host@ == spoofed_host_spec(),
            len == authority@.len(),
            authority@[n as int] == 58u8,
            forall|t: int| 0 <= t < n ==> ascii_lower(#[trigger] authority@[t]) == host@[t],
            n + 1 <= j <= len,
            forall|t: int| n < t < j ==> is_digit(#[trigger] authority@[t]),
        decreases len - j,
    {
        let b = authority[j];
        if !(48u8 <= b && b <= 57u8) {
            assert(!is_digit(authority@[j as int]));
            return false;
        }
        j += 1;
    }
    true
}

/// The process-wide settings, fixed at startup and shared read-only by
/// every connection.
#[derive(Clone, Copy, Debug, PartialEq, Eq, Structural)]
pub struct ProxyConfig {
    pub mode: ProxyMode,
    pub policy: FallbackPolicy,
}

/// Why an inbound request is not forwarded.
#[derive(Clone, Copy, Debug, PartialEq, Eq, Structural)]
pub enum ForwardError {
    /// The request is for a host other than the spoofed one.
    NotIntercepted,
    /// The request's target cannot be sent on to an upstream.
    MalformedTarget,
}

/// Starts forwarding an inbound request for `authority`: only requests for
/// the spoofed host reach the forwarding engine.
pub fn begin_forwarding(config: &ProxyConfig, authority: &[u8]) -> (r: Result<Forwarding, ForwardError>)
    ensures
        r is Ok <==> is_spoofed_authority(authority@),
        r matches Ok(f) ==> f.wf() && f@ == fresh(candidates_spec(config.mode), config.policy),
        r matches Err(e) ==> e == ForwardError::NotIntercepted,
{
    if !is_spoofed(authority) {
        return Err(ForwardError::NotIntercepted);
    }
    Ok(Forwarding::new(config.mode, config.policy))
}

/// The text of the plain-HTTP URI under which a request's target is asked
/// of `upstream`: the scheme `http`, the upstream's host as authority, and
/// the inbound path and query.
pub open spec fn outbound_target_spec(upstream: Upstream, path_and_query: Seq<char>) -> Seq<char> {
    "http://"@ + host_spec(upstream) + path_and_query
}

/// The outbound URI text for `upstream` and an inbound path and query.
pub fn outbound_target(upstream: Upstream, path_and_query: &str) -> (r: String)
    ensures
        r@ == outbound_target_spec(upstream, path_and_query@),
{
    let mut text = String::from_str("http://");
    text.append(upstream.host());
    text.append(path_and_query);
    text
}

/// Whether `http` accepts a text as a URI.
pub uninterp spec fn uri_accepted(text: Seq<char>) -> bool;

/// Relies on `<http::Uri as FromStr>::from_str`: whether a text parses as a
/// URI depends on the text alone.
#[verifier::external_body]
fn parse_uri(text: &str) -> (r: Result<http::Uri, http::uri::InvalidUri>)
    ensures
        r is Ok == uri_accepted(text@),
{
    text.parse::<http::Uri>()
}

/// The plain-HTTP URI under which a request's target is asked of `upstream`:
/// the text of `outbound_target`, parsed.
pub fn outbound_uri(upstream: Upstream, path_and_query: &str) -> (r: Result<http::Uri, ForwardError>)
    ensures
        r is Ok == uri_accepted(outbound_target_spec(upstream, path_and_query@)),
        r matches Err(e) ==> e == ForwardError::MalformedTarget,
{
    let text = outbound_target(upstream, path_and_query);
    match parse_uri(text.as_str()) {
        Ok(u) => Ok(u),
        Err(_) => Err(ForwardError::MalformedTarget),
    }
}

} // verus!
