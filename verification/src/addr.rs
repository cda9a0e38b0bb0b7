//! Socket-address model for the data plane. Only IPv4 carries through the
//! PROXY headers; an IPv6 peer is represented but carries no fields, since
//! nothing in the core reads one.

use vstd::prelude::*;
use crate::text::{dec_rep, dec_u16, dec_u64};

verus! {

/// An IPv4 address as four octets.
#[derive(Clone, Copy, PartialEq, Eq, Structural, Debug)]
pub struct IpV4 {
    pub a: u8,
    pub b: u8,
    pub c: u8,
    pub d: u8,
}

/// An IPv4 socket address.
#[derive(Clone, Copy, PartialEq, Eq, Structural, Debug)]
pub struct SockAddrV4 {
    pub ip: IpV4,
    pub port: u16,
}

/// A peer address as the data plane sees it: IPv4 with its fields, or IPv6,
/// which the PROXY encoders reject.
#[derive(Clone, Copy, PartialEq, Eq, Structural, Debug)]
pub enum PeerAddr {
    V4(SockAddrV4),
    V6,
}

/// Dotted-quad rendering of an IPv4 address.
pub open spec fn quad_rep(ip: IpV4) -> Seq<char> {
    dec_rep(ip.a as nat) + seq!['.'] + dec_rep(ip.b as nat) + seq!['.'] + dec_rep(ip.c as nat)
        + seq!['.'] + dec_rep(ip.d as nat)
}

/// Rendering of an IPv4 socket address as `a.b.c.d:port`.
pub open spec fn sock_rep(sa: SockAddrV4) -> Seq<char> {
    quad_rep(sa.ip) + seq![':'] + dec_rep(sa.port as nat)
}

/// Renders an IPv4 address as a dotted quad.
pub fn render_quad(ip: &IpV4) -> (r: String)
    ensures
        r@ == quad_rep(*ip),
{
    proof {
        reveal_strlit(".");
    }
    let mut s = dec_u64(ip.a as u64);
    s.append(".");
    s.append(dec_u64(ip.b as u64).as_str());
    s.append(".");
    s.append(dec_u64(ip.c as u64).as_str());
    s.append(".");
    s.append(dec_u64(ip.d as u64).as_str());
    proof {
        assert(s@ =~= quad_rep(*ip));
    }
    s
}

/// Renders an IPv4 socket address as `a.b.c.d:port`.
pub fn render_sock(sa: &SockAddrV4) -> (r: String)
    ensures
        r@ == sock_rep(*sa),
{
    proof {
        reveal_strlit(":");
    }
    let mut s = render_quad(&sa.ip);
    s.append(":");
    s.append(dec_u16(sa.port).as_str());
    proof {
        assert(s@ =~= sock_rep(*sa));
    }
    s
}

/// Requires the peer to be IPv4, as the PROXY headers do; an IPv6 peer is
/// reported as unsupported.
pub fn require_v4(p: &PeerAddr) -> (r: Option<SockAddrV4>)
    ensures
        r matches Some(sa) ==> *p == PeerAddr::V4(sa),
        r is None <==> *p is V6,
{
    match p {
        PeerAddr::V4(sa) => Some(*sa),
        PeerAddr::V6 => None,
    }
}

} // verus!
