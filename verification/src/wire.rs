//! Byte-level wire formats: big-endian integer encodings and the handoff
//! frame that the edge writes onto a parked worker connection to assign it a
//! forwarding target.
//!
//! Handoff frame layout (as sent on the wire): one length byte `L`, then `L`
//! bytes laid out as `0x01 | 8-byte big-endian target length | target bytes |
//! 0x02`.

use vstd::prelude::*;
use vstd::string::StringSliceAdditionalSpecFns;

verus! {

/// Big-endian two-byte encoding of a 16-bit value.
pub open spec fn spec_be16(x: u16) -> Seq<u8> {
    seq![(x >> 8) as u8, (x & 0xff) as u8]
}

/// Big-endian eight-byte encoding of a 64-bit value.
pub open spec fn spec_be64(x: u64) -> Seq<u8> {
    seq![
        (x >> 56) as u8,
        ((x >> 48) & 0xff) as u8,
        ((x >> 40) & 0xff) as u8,
        ((x >> 32) & 0xff) as u8,
        ((x >> 24) & 0xff) as u8,
        ((x >> 16) & 0xff) as u8,
        ((x >> 8) & 0xff) as u8,
        (x & 0xff) as u8,
    ]
}

/// The 64-bit value read back from eight big-endian bytes.
pub open spec fn spec_be64_val(s: Seq<u8>) -> u64
    recommends
        s.len() == 8,
{
    (((s[0] as u64) << 56) | ((s[1] as u64) << 48) | ((s[2] as u64) << 40) | ((s[3] as u64) << 32)
        | ((s[4] as u64) << 24) | ((s[5] as u64) << 16) | ((s[6] as u64) << 8) | (s[7] as u64)) as u64
}

/// Appends the big-endian encoding of `x` to `out`.
pub fn push_be16(out: &mut Vec<u8>, x: u16)
    ensures
        final(out)@ == old(out)@ + spec_be16(x),
{
    out.push((x >> 8) as u8);
    out.push((x & 0xff) as u8);
    proof {
        assert(final(out)@ =~= old(out)@ + spec_be16(x));
    }
}

/// Appends the big-endian encoding of `x` to `out`.
pub fn push_be64(out: &mut Vec<u8>, x: u64)
    ensures
        final(out)@ == old(out)@ + spec_be64(x),
{
    out.push((x >> 56) as u8);
    out.push(((x >> 48) & 0xff) as u8);
    out.push(((x >> 40) & 0xff) as u8);
    out.push(((x >> 32) & 0xff) as u8);
    out.push(((x >> 24) & 0xff) as u8);
    out.push(((x >> 16) & 0xff) as u8);
    out.push(((x >> 8) & 0xff) as u8);
    out.push((x & 0xff) as u8);
    proof {
        assert(final(out)@ =~= old(out)@ + spec_be64(x));
    }
}

/// Reads a 64-bit big-endian value from `b[start..start + 8]`.
pub fn read_be64(b: &[u8], start: usize) -> (x: u64)
    requires
        start + 8 <= b@.len(),
    ensures
        x == spec_be64_val(b@.subrange(start as int, start as int + 8)),
{
    let x: u64 = ((b[start] as u64) << 56) | ((b[start + 1] as u64) << 48)
        | ((b[start + 2] as u64) << 40) | ((b[start + 3] as u64) << 32)
        | ((b[start + 4] as u64) << 24) | ((b[start + 5] as u64) << 16)
        | ((b[start + 6] as u64) << 8) | (b[start + 7] as u64);
    proof {
        let s = b@.subrange(start as int, start as int + 8);
        assert(s[0] == b@[start as int] && s[1] == b@[start as int + 1] && s[2] == b@[start as int
            + 2] && s[3] == b@[start as int + 3] && s[4] == b@[start as int + 4] && s[5] == b@[
            start as int + 5] && s[6] == b@[start as int + 6] && s[7] == b@[start as int + 7]);
    }
    x
}

/// The body of a handoff frame for a target of byte sequence `t`:
/// `0x01 | 8-byte big-endian length of t | t | 0x02`.
pub open spec fn spec_handoff_body(t: Seq<u8>) -> Seq<u8> {
    seq![1u8] + spec_be64(t.len() as u64) + t + seq![2u8]
}

/// The complete handoff frame as written to the wire: one length byte, then
/// the body. The length byte caps the target at 245 bytes.
pub open spec fn spec_handoff_frame(t: Seq<u8>) -> Seq<u8> {
    seq![(t.len() + 10) as u8] + spec_handoff_body(t)
}

/// A received handoff body is well formed when it opens with `0x01`, closes
/// with `0x02`, and its length field fits inside the body.
pub open spec fn handoff_body_ok(b: Seq<u8>) -> bool {
    &&& b.len() >= 10
    &&& b[0] == 1u8
    &&& b[b.len() - 1] == 2u8
    &&& spec_be64_val(b.subrange(1, 9)) <= b.len() - 9
}

/// The target bytes carried by a well-formed handoff body.
pub open spec fn spec_handoff_target(b: Seq<u8>) -> Seq<u8>
    recommends
        handoff_body_ok(b),
{
    b.subrange(9, 9 + spec_be64_val(b.subrange(1, 9)) as int)
}

/// Builds the handoff frame for a target string of at most 245 bytes.
pub fn encode_handoff_frame(target: &str) -> (r: Vec<u8>)
    requires
        target.spec_bytes().len() <= 245,
    ensures
        r@ == spec_handoff_frame(target.spec_bytes()),
{
    let bytes = target.as_bytes();
    let mut body: Vec<u8> = Vec::new();
    body.push((bytes.len() + 10) as u8);
    body.push(1u8);
    push_be64(&mut body, bytes.len() as u64);
    let mut i: usize = 0;
    while i < bytes.len()
        invariant
            i <= bytes@.len() <= 245,
            body@ == seq![(bytes@.len() + 10) as u8, 1u8] + spec_be64(bytes@.len() as u64)
                + bytes@.subrange(0, i as int),
        decreases bytes@.len() - i,
    {
        body.push(bytes[i]);
        proof {
            assert(bytes@.subrange(0, i + 1) =~= bytes@.subrange(0, i as int).push(bytes@[i as int]));
            assert(body@ =~= seq![(bytes@.len() + 10) as u8, 1u8] + spec_be64(bytes@.len() as u64)
                + bytes@.subrange(0, i + 1));
        }
        i = i + 1;
    }
    body.push(2u8);
    proof {
        assert(bytes@.subrange(0, bytes@.len() as int) =~= bytes@);
        assert(body@ =~= spec_handoff_frame(target.spec_bytes()));
    }
    body
}

/// Builds the handoff frame, or reports a target too long for the one-byte
/// length prefix.
pub fn checked_handoff_frame(target: &str) -> (r: Option<Vec<u8>>)
    ensures
        r matches Some(f) ==> f@ == spec_handoff_frame(target.spec_bytes()),
        r is Some <==> target.spec_bytes().len() <= 245,
{
    if target.as_bytes().len() <= 245 {
        Some(encode_handoff_frame(target))
    } else {
        None
    }
}

/// Parses a received handoff body (the bytes after the length prefix) into
/// the target bytes; a malformed body yields `None`.
pub fn parse_handoff_body(b: &[u8]) -> (r: Option<Vec<u8>>)
    ensures
        r is Some <==> handoff_body_ok(b@),
        r matches Some(t) ==> t@ == spec_handoff_target(b@),
{
    if b.len() < 10 {
        return None;
    }
    if b[0] != 1u8 {
        return None;
    }
    if b[b.len() - 1] != 2u8 {
        return None;
    }
    let t_len = read_be64(b, 1);
    if t_len > (b.len() - 9) as u64 {
        return None;
    }
    let t_len: usize = t_len as usize;
    let target = vstd::slice::slice_to_vec(&b[9..9 + t_len]);
    proof {
        assert(target@ =~= spec_handoff_target(b@));
    }
    Some(target)
}

/// Round trip: a frame built for target `t` parses back to exactly `t`.
pub proof fn lemma_handoff_round_trip(t: Seq<u8>)
    requires
        t.len() <= 245,
    ensures
        handoff_body_ok(spec_handoff_body(t)),
        spec_handoff_target(spec_handoff_body(t)) == t,
{
    let b = spec_handoff_body(t);
    assert(b.subrange(1, 9) =~= spec_be64(t.len() as u64));
    lemma_be64_round_trip(t.len() as u64);
    assert(b[0] == 1u8);
    assert(b[b.len() - 1] == 2u8);
    assert(spec_handoff_target(b) =~= t);
}

/// Round trip: decoding the eight big-endian bytes of `x` gives `x` back.
pub broadcast proof fn lemma_be64_round_trip(x: u64)
    ensures
        #[trigger] spec_be64_val(spec_be64(x)) == x,
{
    assert(((((x >> 56) as u8) as u64) << 56) | (((((x >> 48) & 0xff) as u8) as u64) << 48) | ((((
    (x >> 40) & 0xff) as u8) as u64) << 40) | (((((x >> 32) & 0xff) as u8) as u64) << 32) | (((((x
        >> 24) & 0xff) as u8) as u64) << 24) | (((((x >> 16) & 0xff) as u8) as u64) << 16) | (((((
    x >> 8) & 0xff) as u8) as u64) << 8) | (((x & 0xff) as u8) as u64) == x) by (bit_vector);
}

} // verus!
