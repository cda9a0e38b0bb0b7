//! Client-side core: the tunnel configuration model, the choice among
//! resolved target addresses, the request values sent to the control plane,
//! and the validation of a received handoff frame.

use vstd::prelude::*;
use crate::proxy::{Mode, Protocol};
use crate::text::dec_rep;
use crate::text::dec_u16;
use crate::wire::{handoff_body_ok, parse_handoff_body, spec_handoff_target};

verus! {

/// One configured tunnel on the client side.
pub struct Tunnel {
    pub target: String,
    pub protocol: Protocol,
    pub mode: Mode,
}

/// The client's configuration: key, control-plane base URL, the public host
/// used for worker connections, pool size, and the tunnels by identifier.
pub struct Configuration {
    pub secret_key: String,
    pub edge: String,
    pub edge_ip: String,
    pub idle_workers: usize,
    pub tunnels: Vec<(String, Tunnel)>,
}

/// One candidate from resolving a tunnel target: whether it is IPv4, and
/// its rendered `host:port` form.
pub struct ResolvedAddr {
    pub is_ipv4: bool,
    pub text: String,
}

/// Picks the address a tunnel target resolves to: the first IPv4 candidate
/// when there is one, otherwise the first candidate of any kind.
pub fn pick_resolved(addrs: &Vec<ResolvedAddr>) -> (r: Option<usize>)
    ensures
        r is None <==> addrs@.len() == 0,
        r matches Some(i) ==> i < addrs@.len() && {
            if exists|k: int| 0 <= k < addrs@.len() && (#[trigger] addrs@[k]).is_ipv4 {
                addrs@[i as int].is_ipv4 && forall|k: int|
                    0 <= k < i ==> !(#[trigger] addrs@[k]).is_ipv4
            } else {
                i == 0
            }
        },
{
    let mut i: usize = 0;
    while i < addrs.len()
        invariant
            i <= addrs@.len(),
            forall|k: int| 0 <= k < i ==> !(#[trigger] addrs@[k]).is_ipv4,
        decreases addrs@.len() - i,
    {
        if addrs[i].is_ipv4 {
            return Some(i);
        }
        i = i + 1;
    }
    if addrs.len() > 0 {
        Some(0)
    } else {
        None
    }
}

/// The form value naming a protocol, as the control plane reads it back.
pub open spec fn spec_protocol_name(p: Protocol) -> Seq<char> {
    match p {
        Protocol::Tcp => "Tcp"@,
        Protocol::HAProxyV1 => "HAProxyV1"@,
        Protocol::HAProxyV2 => "HAProxyV2"@,
    }
}

/// The form value naming a mode.
pub open spec fn spec_mode_name(m: Mode) -> Seq<char> {
    match m {
        Mode::Reverse => "Reverse"@,
        Mode::HolePunch => "HolePunch"@,
    }
}

/// Renders a protocol for the `POST /edge` form.
pub fn protocol_name(p: &Protocol) -> (r: String)
    ensures
        r@ == spec_protocol_name(*p),
{
    match p {
        Protocol::Tcp => String::from_str("Tcp"),
        Protocol::HAProxyV1 => String::from_str("HAProxyV1"),
        Protocol::HAProxyV2 => String::from_str("HAProxyV2"),
    }
}

/// Renders a mode for the `POST /edge` form.
pub fn mode_name(m: &Mode) -> (r: String)
    ensures
        r@ == spec_mode_name(*m),
{
    match m {
        Mode::Reverse => String::from_str("Reverse"),
        Mode::HolePunch => String::from_str("HolePunch"),
    }
}

/// Reads a protocol back from its form value.
pub fn protocol_from_name(s: &String) -> (r: Option<Protocol>)
    ensures
        r matches Some(p) ==> s@ == spec_protocol_name(p),
        r is None <==> s@ != "Tcp"@ && s@ != "HAProxyV1"@ && s@ != "HAProxyV2"@,
{
    if *s == String::from_str("Tcp") {
        Some(Protocol::Tcp)
    } else if *s == String::from_str("HAProxyV1") {
        Some(Protocol::HAProxyV1)
    } else if *s == String::from_str("HAProxyV2") {
        Some(Protocol::HAProxyV2)
    } else {
        None
    }
}

/// Reads a mode back from its form value.
pub fn mode_from_name(s: &String) -> (r: Option<Mode>)
    ensures
        r matches Some(m) ==> s@ == spec_mode_name(m),
        r is None <==> s@ != "Reverse"@ && s@ != "HolePunch"@,
{
    if *s == String::from_str("Reverse") {
        Some(Mode::Reverse)
    } else if *s == String::from_str("HolePunch") {
        Some(Mode::HolePunch)
    } else {
        None
    }
}

/// A protocol survives the trip through its form value.
pub proof fn lemma_protocol_name_round_trip(p: Protocol, r: Option<Protocol>)
    requires
        r matches Some(q) ==> spec_protocol_name(p) == spec_protocol_name(q),
        r is None ==> spec_protocol_name(p) != "Tcp"@ && spec_protocol_name(p) != "HAProxyV1"@
            && spec_protocol_name(p) != "HAProxyV2"@,
    ensures
        r == Some(p),
{
    reveal_strlit("Tcp");
    reveal_strlit("HAProxyV1");
    reveal_strlit("HAProxyV2");
    match r {
        None => {
            assert(spec_protocol_name(p) == spec_protocol_name(p));
        },
        Some(q) => {
            if p != q {
                assert("Tcp"@.len() == 3 && "HAProxyV1"@.len() == 9 && "HAProxyV2"@.len() == 9);
                assert("HAProxyV1"@[8] == '1' && "HAProxyV2"@[8] == '2');
                assert(spec_protocol_name(p) != spec_protocol_name(q));
            }
        },
    }
}

/// The URL of a control-plane endpoint under the configured base.
pub fn api_url(edge: &String, path: &str) -> (r: String)
    ensures
        r@ == edge@ + path@,
{
    let mut s = edge.clone();
    s.append(path);
    s
}

/// The `host:port` string a client dials for a granted public port.
pub fn worker_target(edge_ip: &String, port: u16) -> (r: String)
    ensures
        r@ == edge_ip@ + ":"@ + dec_rep(port as nat),
{
    let mut s = edge_ip.clone();
    s.append(":");
    s.append(dec_u16(port).as_str());
    s
}

/// Relies on String::from_utf8: it succeeds exactly on valid UTF-8 and
/// decodes those bytes.
#[verifier::external_body]
fn utf8_to_string(b: Vec<u8>) -> (r: Option<String>)
    ensures
        r is Some <==> vstd::utf8::valid_utf8(b@),
        r matches Some(s) ==> s@ == vstd::utf8::decode_utf8(b@),
{
    match String::from_utf8(b) {
        Ok(s) => Some(s),
        Err(_) => None,
    }
}

/// Validates a received handoff body and extracts the target to dial: the
/// frame must be well formed and its target valid UTF-8, as the worker loop
/// requires before reconnecting on any mismatch.
pub fn handoff_target_string(body: &[u8]) -> (r: Option<String>)
    ensures
        r is Some <==> handoff_body_ok(body@) && vstd::utf8::valid_utf8(
            spec_handoff_target(body@),
        ),
        r matches Some(s) ==> s@ == vstd::utf8::decode_utf8(spec_handoff_target(body@)),
{
    match parse_handoff_body(body) {
        None => None,
        Some(t) => utf8_to_string(t),
    }
}

} // verus!
