//! Legacy request framing: an 8-byte big-endian length prefix followed by
//! the payload bytes. Receivers cap the payload at [`MAX_FRAME_PAYLOAD`]
//! bytes and tolerate a mismatch between the declared and received length:
//! the payload is delivered either way, with the mismatch reported to the
//! caller. The response of the legacy protocol is a single byte whose value
//! carries no information; it exists only to terminate the exchange.

use vstd::prelude::*;

verus! {

/// Upper bound on the payload a receiver will take from one frame: 100 MiB.
pub const MAX_FRAME_PAYLOAD: usize = 100 * 1024 * 1024;

/// The big-endian 8-byte encoding of a 64-bit length.
pub open spec fn u64_be(n: u64) -> Seq<u8> {
    seq![
        (n >> 56) as u8,
        (n >> 48) as u8,
        (n >> 40) as u8,
        (n >> 32) as u8,
        (n >> 24) as u8,
        (n >> 16) as u8,
        (n >> 8) as u8,
        n as u8,
    ]
}

/// The 64-bit value read back from 8 big-endian bytes.
pub open spec fn be_u64(s: Seq<u8>) -> u64
    recommends
        s.len() == 8,
{
    (((s[0] as u64) << 56) | ((s[1] as u64) << 48) | ((s[2] as u64) << 40) | ((s[3] as u64) << 32)
        | ((s[4] as u64) << 24) | ((s[5] as u64) << 16) | ((s[6] as u64) << 8) | (s[7] as u64))
}

/// Reading back the big-endian encoding of a length yields the length.
pub proof fn lemma_be_u64_round_trip(n: u64)
    ensures
        be_u64(u64_be(n)) == n,
{
    let b0 = (n >> 56) as u8;
    let b1 = (n >> 48) as u8;
    let b2 = (n >> 40) as u8;
    let b3 = (n >> 32) as u8;
    let b4 = (n >> 24) as u8;
    let b5 = (n >> 16) as u8;
    let b6 = (n >> 8) as u8;
    let b7 = n as u8;
    assert((((b0 as u64) << 56) | ((b1 as u64) << 48) | ((b2 as u64) << 40) | ((b3 as u64) << 32)
        | ((b4 as u64) << 24) | ((b5 as u64) << 16) | ((b6 as u64) << 8) | (b7 as u64)) == n)
        by (bit_vector)
        requires
            b0 == (n >> 56) as u8,
            b1 == (n >> 48) as u8,
            b2 == (n >> 40) as u8,
            b3 == (n >> 32) as u8,
            b4 == (n >> 24) as u8,
            b5 == (n >> 16) as u8,
            b6 == (n >> 8) as u8,
            b7 == n as u8,
    ;
}

/// A frame as written by the sender: the payload's length, big-endian,
/// then the payload itself.
pub open spec fn spec_encode_frame(payload: Seq<u8>) -> Seq<u8>
    recommends
        payload.len() <= u64::MAX,
{
    u64_be(payload.len() as u64) + payload
}

/// What a receiver takes from a frame: `None` if the frame is too short to
/// hold the length prefix; otherwise the payload (capped at
/// [`MAX_FRAME_PAYLOAD`] bytes) and whether its length disagrees with the
/// declared one.
pub open spec fn spec_decode_frame(frame: Seq<u8>) -> Option<(Seq<u8>, bool)> {
    if frame.len() < 8 {
        None
    } else {
        let declared = be_u64(frame.subrange(0, 8));
        let body = frame.skip(8);
        let taken = if body.len() > MAX_FRAME_PAYLOAD {
            body.subrange(0, MAX_FRAME_PAYLOAD as int)
        } else {
            body
        };
        Some((taken, taken.len() != declared))
    }
}

/// Writes the 8-byte big-endian encoding of `n` into a fresh vector.
pub fn u64_to_be_bytes(n: u64) -> (r: Vec<u8>)
    ensures
        r@ == u64_be(n),
{
    let mut r: Vec<u8> = Vec::new();
    r.push((n >> 56) as u8);
    r.push((n >> 48) as u8);
    r.push((n >> 40) as u8);
    r.push((n >> 32) as u8);
    r.push((n >> 24) as u8);
    r.push((n >> 16) as u8);
    r.push((n >> 8) as u8);
    r.push(n as u8);
    proof {
        assert(r@ =~= u64_be(n));
    }
    r
}

/// Reads a 64-bit value from the first 8 bytes of `s`, big-endian.
pub fn u64_from_be_bytes(s: &Vec<u8>) -> (r: u64)
    requires
        s@.len() >= 8,
    ensures
        r == be_u64(s@.subrange(0, 8)),
{
    let r = ((s[0] as u64) << 56) | ((s[1] as u64) << 48) | ((s[2] as u64) << 40) | ((s[3]
        as u64) << 32) | ((s[4] as u64) << 24) | ((s[5] as u64) << 16) | ((s[6] as u64) << 8) | (
    s[7] as u64);
    proof {
        let h = s@.subrange(0, 8);
        assert(h[0] == s@[0] && h[1] == s@[1] && h[2] == s@[2] && h[3] == s@[3] && h[4] == s@[4]
            && h[5] == s@[5] && h[6] == s@[6] && h[7] == s@[7]);
    }
    r
}

/// Frames a payload for the wire: length prefix, then the payload.
pub fn encode_frame(payload: &Vec<u8>) -> (r: Vec<u8>)
    ensures
        r@ == spec_encode_frame(payload@),
        r@.len() == payload@.len() + 8,
{
    let mut r = u64_to_be_bytes(payload.len() as u64);
    let mut i: usize = 0;
    while i < payload.len()
        invariant
            i <= payload@.len(),
            r@ == u64_be(payload@.len() as u64) + payload@.subrange(0, i as int),
        decreases payload@.len() - i,
    {
        r.push(payload[i]);
        proof {
            assert(r@ =~= u64_be(payload@.len() as u64) + payload@.subrange(0, i + 1));
        }
        i = i + 1;
    }
    proof {
        assert(payload@.subrange(0, payload@.len() as int) =~= payload@);
    }
    r
}

/// Unframes a received frame, tolerating a length mismatch as the legacy
/// protocol does: the payload is returned along with a flag that records
/// whether the declared length disagreed with the bytes received.
pub fn decode_frame(frame: &Vec<u8>) -> (r: Option<(Vec<u8>, bool)>)
    ensures
        match r {
            Some(p) => spec_decode_frame(frame@) == Some((p.0@, p.1)),
            None => spec_decode_frame(frame@) is None,
        },
{
    if frame.len() < 8 {
        return None;
    }
    let declared = u64_from_be_bytes(frame);
    let body_len = frame.len() - 8;
    let take = if body_len > MAX_FRAME_PAYLOAD {
        MAX_FRAME_PAYLOAD
    } else {
        body_len
    };
    let mut payload: Vec<u8> = Vec::new();
    let mut i: usize = 0;
    while i < take
        invariant
            i <= take,
            take <= frame@.len() - 8,
            frame@.len() <= usize::MAX,
            payload@ == frame@.skip(8).subrange(0, i as int),
        decreases take - i,
    {
        payload.push(frame[8 + i]);
        proof {
            assert(frame@.skip(8)[i as int] == frame@[8 + i]);
            assert(payload@ =~= frame@.skip(8).subrange(0, i + 1));
        }
        i = i + 1;
    }
    let mismatch = payload.len() as u64 != declared;
    proof {
        let body = frame@.skip(8);
        if body.len() > MAX_FRAME_PAYLOAD {
            assert(payload@ =~= body.subrange(0, MAX_FRAME_PAYLOAD as int));
        } else {
            assert(payload@ =~= body);
        }
    }
    Some((payload, mismatch))
}

/// Round trip of the legacy codec: a payload of at most
/// [`MAX_FRAME_PAYLOAD`] bytes that is framed and then unframed comes back
/// unchanged, with no length mismatch.
pub proof fn lemma_frame_round_trip(payload: Seq<u8>)
    requires
        payload.len() <= MAX_FRAME_PAYLOAD,
    ensures
        spec_decode_frame(spec_encode_frame(payload)) == Some((payload, false)),
{
    let frame = spec_encode_frame(payload);
    assert(frame.subrange(0, 8) =~= u64_be(payload.len() as u64));
    lemma_be_u64_round_trip(payload.len() as u64);
    assert(frame.skip(8) =~= payload);
}

/// The value of the single-byte legacy response; the wire value is
/// irrelevant, the byte only terminates the protocol.
pub fn ack_byte() -> (r: u8)
    ensures
        r == 0u8,
{
    0
}

} // verus!
