//! Fixed-layout wire structures of the two UDP responders: the 32-byte
//! timing-sync exchange and the 8-byte-minimum control datagram.

use vstd::prelude::*;

verus! {

/// Marker in byte 1 of a control datagram announcing a retransmission
/// request (`0x80 | 0x55`).
pub const RESEND_REQUEST_MARKER: u8 = 0xd5;

/// Big-endian encoding of a 16-bit value as two bytes.
pub open spec fn spec_u16_be(x: u16) -> Seq<u8> {
    seq![(x >> 8) as u8, (x & 0xff) as u8]
}

/// The 16-bit value two big-endian bytes denote.
pub open spec fn spec_u16_of_be(hi: u8, lo: u8) -> u16 {
    (hi * 256 + lo) as u16
}

/// Big-endian encoding of a 32-bit value as four bytes.
pub open spec fn spec_u32_be(x: u32) -> Seq<u8> {
    seq![(x >> 24) as u8, ((x >> 16) & 0xff) as u8, ((x >> 8) & 0xff) as u8, (x & 0xff) as u8]
}

/// Splits a 16-bit value into its two big-endian bytes.
pub fn u16_to_be(x: u16) -> (r: [u8; 2])
    ensures
        r@ == spec_u16_be(x),
{
    let r = [(x >> 8) as u8, (x & 0xff) as u8];
    proof {
        assert(r@ =~= spec_u16_be(x));
    }
    r
}

/// Reads a 16-bit value from its two big-endian bytes.
pub fn u16_from_be(hi: u8, lo: u8) -> (r: u16)
    ensures
        r == spec_u16_of_be(hi, lo),
{
    (hi as u16) * 256 + lo as u16
}

/// Splits a 32-bit value into its four big-endian bytes.
pub fn u32_to_be(x: u32) -> (r: [u8; 4])
    ensures
        r@ == spec_u32_be(x),
{
    let r = [(x >> 24) as u8, ((x >> 16) & 0xff) as u8, ((x >> 8) & 0xff) as u8, (x & 0xff) as u8];
    proof {
        assert(r@ =~= spec_u32_be(x));
    }
    r
}

/// The 32-byte reply to a timing-sync request: fixed header `0x80d3`, type
/// `0x0007`, four zero bytes, the request's transmit timestamp (its bytes
/// 24-31) echoed at bytes 8-15, and the fresh 8-byte receive timestamp
/// doubled at bytes 16-23 and 24-31.
pub open spec fn spec_timing_reply(req: Seq<u8>, now_ts: Seq<u8>) -> Seq<u8> {
    seq![
        0x80u8,
        0xd3u8,
        0x00u8,
        0x07u8,
        0u8,
        0u8,
        0u8,
        0u8,
        req[24],
        req[25],
        req[26],
        req[27],
        req[28],
        req[29],
        req[30],
        req[31],
    ] + now_ts + now_ts
}

/// Builds the reply the Timing Responder sends for one received datagram.
///
/// A datagram of fewer than 32 bytes produces no reply; otherwise the reply
/// is exactly the 32 bytes of [`spec_timing_reply`].
pub fn timing_reply(req: &[u8], now_ts: &[u8]) -> (r: Option<Vec<u8>>)
    requires
        now_ts@.len() == 8,
    ensures
        r is Some <==> req@.len() >= 32,
        r matches Some(v) ==> v@ == spec_timing_reply(req@, now_ts@),
{
    if req.len() < 32 {
        return None;
    }
    let mut reply: Vec<u8> = Vec::new();
    reply.push(0x80u8);
    reply.push(0xd3u8);
    reply.push(0x00u8);
    reply.push(0x07u8);
    reply.push(0u8);
    reply.push(0u8);
    reply.push(0u8);
    reply.push(0u8);
    let mut i: usize = 24;
    while i < 32
        invariant
            req@.len() >= 32,
            8 <= reply@.len() == i - 16,
            24 <= i <= 32,
            reply@ =~= seq![0x80u8, 0xd3u8, 0x00u8, 0x07u8, 0u8, 0u8, 0u8, 0u8] + req@.subrange(
                24,
                i as int,
            ),
        decreases 32 - i,
    {
        reply.push(req[i]);
        proof {
            assert(reply@.drop_last() + req@.subrange(24, i as int).push(req@[i as int])
                =~= reply@.drop_last() + req@.subrange(24, i + 1));
        }
        i = i + 1;
    }
    let mut j: usize = 0;
    while j < 8
        invariant
            now_ts@.len() == 8,
            reply@.len() == 16 + j,
            0 <= j <= 8,
            reply@ =~= reply@.subrange(0, 16) + now_ts@.subrange(0, j as int),
            reply@.subrange(0, 16) == seq![0x80u8, 0xd3u8, 0x00u8, 0x07u8, 0u8, 0u8, 0u8, 0u8]
                + req@.subrange(24, 32),
            req@.len() >= 32,
        decreases 8 - j,
    {
        reply.push(now_ts[j]);
        j = j + 1;
    }
    let mut k: usize = 0;
    while k < 8
        invariant
            now_ts@.len() == 8,
            reply@.len() == 24 + k,
            0 <= k <= 8,
            reply@ =~= reply@.subrange(0, 24) + now_ts@.subrange(0, k as int),
            reply@.subrange(0, 24) == seq![0x80u8, 0xd3u8, 0x00u8, 0x07u8, 0u8, 0u8, 0u8, 0u8]
                + req@.subrange(24, 32) + now_ts@,
            req@.len() >= 32,
        decreases 8 - k,
    {
        reply.push(now_ts[k]);
        k = k + 1;
    }
    proof {
        assert(now_ts@.subrange(0, 8) =~= now_ts@);
        assert(reply@ =~= spec_timing_reply(req@, now_ts@));
    }
    Some(reply)
}

/// The reply always has exactly 32 bytes, echoes the request's bytes 24-27
/// at its bytes 8-11 and the request's bytes 28-31 at its bytes 12-15, and
/// carries the fresh timestamp at bytes 16-23 and again at 24-31.
pub proof fn lemma_timing_reply_echo(req: Seq<u8>, now_ts: Seq<u8>)
    requires
        req.len() >= 32,
        now_ts.len() == 8,
    ensures
        spec_timing_reply(req, now_ts).len() == 32,
        spec_timing_reply(req, now_ts).subrange(8, 12) == req.subrange(24, 28),
        spec_timing_reply(req, now_ts).subrange(12, 16) == req.subrange(28, 32),
        spec_timing_reply(req, now_ts).subrange(16, 24) == now_ts,
        spec_timing_reply(req, now_ts).subrange(24, 32) == now_ts,
{
    let r = spec_timing_reply(req, now_ts);
    assert(r.subrange(8, 12) =~= req.subrange(24, 28));
    assert(r.subrange(12, 16) =~= req.subrange(28, 32));
    assert(r.subrange(16, 24) =~= now_ts);
    assert(r.subrange(24, 32) =~= now_ts);
}

/// The (first missing sequence number, missing count) pair a control
/// datagram requests for retransmission: present exactly when the datagram
/// has at least 8 bytes and its byte 1 is the resend marker.
pub open spec fn spec_control_request(msg: Seq<u8>) -> Option<(u16, u16)> {
    if msg.len() >= 8 && msg[1] == RESEND_REQUEST_MARKER {
        Some((spec_u16_of_be(msg[4], msg[5]), spec_u16_of_be(msg[6], msg[7])))
    } else {
        None
    }
}

/// Extracts the retransmission request from one control datagram, if the
/// datagram is long enough and carries the resend marker in byte 1.
pub fn control_request(msg: &[u8]) -> (r: Option<(u16, u16)>)
    ensures
        r == spec_control_request(msg@),
{
    if msg.len() < 8 {
        return None;
    }
    if msg[1] != RESEND_REQUEST_MARKER {
        return None;
    }
    let seq = u16_from_be(msg[4], msg[5]);
    let count = u16_from_be(msg[6], msg[7]);
    Some((seq, count))
}

} // verus!
