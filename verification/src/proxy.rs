//! Tunnel protocols and modes, and the PROXY v1 / v2 header encoders.
//!
//! The v1 header is a single CRLF-terminated ASCII line; the v2 header is a
//! fixed 20-byte binary block (IPv4/TCP only, with the four-byte signature
//! this wire format uses). Both carry the true source and destination of a
//! proxied connection to the final server.

use vstd::prelude::*;
use vstd::string::StringSliceAdditionalSpecFns;
use crate::addr::{quad_rep, render_quad, IpV4, PeerAddr, SockAddrV4};
use crate::text::{dec_rep, dec_u16};

verus! {

/// The framing applied toward the private target.
#[derive(Clone, Copy, PartialEq, Eq, Structural, Debug)]
pub enum Protocol {
    Tcp,
    HAProxyV1,
    HAProxyV2,
}

/// How the edge reaches the private target: dialing it directly, or
/// consuming a parked worker connection.
#[derive(Clone, Copy, PartialEq, Eq, Structural, Debug)]
pub enum Mode {
    Reverse,
    HolePunch,
}

/// The PROXY v1 header line for an IPv4 source and destination.
pub open spec fn spec_v1_header(src: SockAddrV4, dst: SockAddrV4) -> Seq<char> {
    "PROXY TCP4 "@ + quad_rep(src.ip) + " "@ + quad_rep(dst.ip) + " "@ + dec_rep(src.port as nat)
        + " "@ + dec_rep(dst.port as nat) + "\r\n"@
}

/// The 20-byte PROXY v2 header for an IPv4 source and destination.
pub open spec fn spec_v2_header(src: SockAddrV4, dst: SockAddrV4) -> Seq<u8> {
    seq![
        0x0du8,
        0x0au8,
        0x0du8,
        0x0au8,
        0x21u8,
        0x11u8,
        0x00u8,
        0x0cu8,
        src.ip.a,
        src.ip.b,
        src.ip.c,
        src.ip.d,
        dst.ip.a,
        dst.ip.b,
        dst.ip.c,
        dst.ip.d,
        (src.port >> 8) as u8,
        (src.port & 0xff) as u8,
        (dst.port >> 8) as u8,
        (dst.port & 0xff) as u8,
    ]
}

/// The bytes the edge writes toward the target before any payload: empty for
/// raw TCP, the v1 line, or the v2 block.
pub open spec fn spec_preamble(p: Protocol, src: SockAddrV4, dst: SockAddrV4) -> Seq<u8> {
    match p {
        Protocol::Tcp => seq![],
        Protocol::HAProxyV1 => vstd::utf8::encode_utf8(spec_v1_header(src, dst)),
        Protocol::HAProxyV2 => spec_v2_header(src, dst),
    }
}

/// Renders the PROXY v1 header line.
pub fn haproxy_v1_header(src: &SockAddrV4, dst: &SockAddrV4) -> (r: String)
    ensures
        r@ == spec_v1_header(*src, *dst),
{
    proof {
        reveal_strlit("PROXY TCP4 ");
        reveal_strlit(" ");
        reveal_strlit("\r\n");
    }
    let mut s = String::from_str("PROXY TCP4 ");
    s.append(render_quad(&src.ip).as_str());
    s.append(" ");
    s.append(render_quad(&dst.ip).as_str());
    s.append(" ");
    s.append(dec_u16(src.port).as_str());
    s.append(" ");
    s.append(dec_u16(dst.port).as_str());
    s.append("\r\n");
    proof {
        assert(s@ =~= spec_v1_header(*src, *dst));
    }
    s
}

/// Builds the 20-byte PROXY v2 header.
pub fn haproxy_v2_header(src: &SockAddrV4, dst: &SockAddrV4) -> (r: Vec<u8>)
    ensures
        r@ == spec_v2_header(*src, *dst),
{
    let mut buf: Vec<u8> = Vec::new();
    buf.push(0x0d);
    buf.push(0x0a);
    buf.push(0x0d);
    buf.push(0x0a);
    buf.push(0x21);
    buf.push(0x11);
    buf.push(0x00);
    buf.push(0x0c);
    buf.push(src.ip.a);
    buf.push(src.ip.b);
    buf.push(src.ip.c);
    buf.push(src.ip.d);
    buf.push(dst.ip.a);
    buf.push(dst.ip.b);
    buf.push(dst.ip.c);
    buf.push(dst.ip.d);
    buf.push((src.port >> 8) as u8);
    buf.push((src.port & 0xff) as u8);
    buf.push((dst.port >> 8) as u8);
    buf.push((dst.port & 0xff) as u8);
    proof {
        assert(buf@ =~= spec_v2_header(*src, *dst));
    }
    buf
}

/// Resolves the destination address a PROXY header names: in Reverse mode
/// the dialed target socket's peer, in HolePunch mode the tunnel's stored
/// target string. An IPv6 peer or an unparsable target yields none, and the
/// header is skipped with a log line.
pub fn header_dst(mode: &Mode, server_peer: &PeerAddr, target: &str) -> (r: Option<SockAddrV4>)
    ensures
        *mode is Reverse ==> ((r matches Some(sa) ==> *server_peer == PeerAddr::V4(sa)) && (
        r is None <==> *server_peer is V6)),
        *mode is HolePunch ==> r == crate::parse::spec_parse_sock(target@),
{
    match mode {
        Mode::Reverse => crate::addr::require_v4(server_peer),
        Mode::HolePunch => crate::parse::parse_sock_addr(target),
    }
}

/// The preamble bytes for a protocol, from the already-resolved source and
/// destination addresses.
pub fn header_preamble(p: &Protocol, src: &SockAddrV4, dst: &SockAddrV4) -> (r: Vec<u8>)
    ensures
        r@ == spec_preamble(*p, *src, *dst),
{
    match p {
        Protocol::Tcp => Vec::new(),
        Protocol::HAProxyV1 => {
            let line = haproxy_v1_header(src, dst);
            vstd::slice::slice_to_vec(line.as_str().as_bytes())
        },
        Protocol::HAProxyV2 => haproxy_v2_header(src, dst),
    }
}

} // verus!
