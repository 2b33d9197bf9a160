//! The ComPacket / Packet / SubPacket envelope around a token payload.
use vstd::prelude::*;
use crate::bytes::{
    be_bytes, be_value, fits, lemma_be_bytes_len, lemma_be_round_trip, lemma_fits_pow,
    lemma_pow256_values, push_be, push_slice, read_be,
};

verus! {

/// Bytes of the three headers together.
pub const HEADER_LEN: usize = 56;

/// The largest payload a frame is built around.
pub const MAX_PAYLOAD: usize = 0xFFFF_0000;

/// Why a received frame was refused.
#[derive(Clone, Copy, Debug, PartialEq, Eq, Structural)]
pub enum FrameError {
    /// A declared length disagrees with the others or with the buffer.
    Format,
    /// The frame belongs to another session.
    Desync,
}

/// `n` rounded up to a multiple of four.
pub open spec fn pad4(n: nat) -> nat {
    ((n + 3) / 4 * 4) as nat
}

pub open spec fn zeros(n: nat) -> Seq<u8> {
    Seq::new(n, |i: int| 0u8)
}

/// The frame carrying `p` for session `(tsn, hsn)` on channel `com_id`.
pub open spec fn frame_spec(com_id: u16, tsn: u32, hsn: u32, p: Seq<u8>) -> Seq<u8> {
    let padded = pad4(p.len());
    be_bytes(0, 4) + be_bytes(com_id as nat, 2) + be_bytes(0, 10) + be_bytes(36 + padded, 4)
        + be_bytes(tsn as nat, 4) + be_bytes(hsn as nat, 4) + be_bytes(0, 12) + be_bytes(
        12 + padded,
        4,
    ) + be_bytes(0, 8) + be_bytes(p.len(), 4) + p + zeros((padded - p.len()) as nat)
}

/// The four-byte big-endian field at `off`.
pub open spec fn field(s: Seq<u8>, off: int) -> nat {
    be_value(s.subrange(off, off + 4))
}

pub open spec fn com_packet_len(s: Seq<u8>) -> nat {
    field(s, 16)
}

pub open spec fn packet_len(s: Seq<u8>) -> nat {
    field(s, 40)
}

pub open spec fn sub_packet_len(s: Seq<u8>) -> nat {
    field(s, 52)
}

/// What receiving `s` in session `(tsn, hsn)` yields: the payload, or why not.
pub open spec fn parse_spec(s: Seq<u8>, tsn: u32, hsn: u32) -> Result<Seq<u8>, FrameError> {
    if s.len() < HEADER_LEN {
        Err(FrameError::Format)
    } else if com_packet_len(s) != 24 + packet_len(s) || packet_len(s) != 12 + pad4(
        sub_packet_len(s),
    ) || 20 + com_packet_len(s) > s.len() {
        Err(FrameError::Format)
    } else if field(s, 20) != tsn || field(s, 24) != hsn {
        Err(FrameError::Desync)
    } else {
        Ok(s.subrange(56, 56 + sub_packet_len(s) as int))
    }
}

/// `s` with the four-byte field at `off` set to `v`.
pub open spec fn with_field(s: Seq<u8>, off: int, v: nat) -> Seq<u8> {
    s.take(off) + be_bytes(v, 4) + s.skip(off + 4)
}

proof fn lemma_frame_fields(com_id: u16, tsn: u32, hsn: u32, p: Seq<u8>)
    requires
        p.len() <= MAX_PAYLOAD,
    ensures
        ({
            let f = frame_spec(com_id, tsn, hsn, p);
            &&& f.len() == HEADER_LEN + pad4(p.len())
            &&& com_packet_len(f) == 36 + pad4(p.len())
            &&& packet_len(f) == 12 + pad4(p.len())
            &&& sub_packet_len(f) == p.len()
            &&& field(f, 20) == tsn
            &&& field(f, 24) == hsn
            &&& f.subrange(56, 56 + p.len() as int) == p
        }),
{
    let padded = pad4(p.len());
    lemma_pow256_values();
    lemma_fits_pow(36 + padded, 4);
    lemma_fits_pow(12 + padded, 4);
    lemma_fits_pow(p.len(), 4);
    lemma_fits_pow(tsn as nat, 4);
    lemma_fits_pow(hsn as nat, 4);
    lemma_be_round_trip(36 + padded, 4);
    lemma_be_round_trip(12 + padded, 4);
    lemma_be_round_trip(p.len(), 4);
    lemma_be_round_trip(tsn as nat, 4);
    lemma_be_round_trip(hsn as nat, 4);
    lemma_be_bytes_len(0, 4);
    lemma_be_bytes_len(com_id as nat, 2);
    lemma_be_bytes_len(0, 10);
    lemma_be_bytes_len(0, 12);
    lemma_be_bytes_len(0, 8);
    let f = frame_spec(com_id, tsn, hsn, p);
    assert(f.subrange(16, 20) =~= be_bytes(36 + padded, 4));
    assert(f.subrange(20, 24) =~= be_bytes(tsn as nat, 4));
    assert(f.subrange(24, 28) =~= be_bytes(hsn as nat, 4));
    assert(f.subrange(40, 44) =~= be_bytes(12 + padded, 4));
    assert(f.subrange(52, 56) =~= be_bytes(p.len(), 4));
    assert(f.subrange(56, 56 + p.len() as int) =~= p);
}

/// Receiving a frame built for the same session gives back exactly its payload.
pub proof fn frame_round_trip(com_id: u16, tsn: u32, hsn: u32, p: Seq<u8>)
    requires
        p.len() <= MAX_PAYLOAD,
    ensures
        parse_spec(frame_spec(com_id, tsn, hsn, p), tsn, hsn) == Ok::<Seq<u8>, FrameError>(p),
{
    lemma_frame_fields(com_id, tsn, hsn, p);
}

proof fn lemma_with_field(s: Seq<u8>, off: int, v: nat, other: int)
    requires
        0 <= off,
        off + 4 <= s.len(),
        0 <= other,
        other + 4 <= s.len(),
        fits(v, 4),
    ensures
        with_field(s, off, v).len() == s.len(),
        field(with_field(s, off, v), off) == v,
        other + 4 <= off || off + 4 <= other ==> field(with_field(s, off, v), other) == field(
            s,
            other,
        ),
{
    lemma_be_round_trip(v, 4);
    let w = with_field(s, off, v);
    assert(w.subrange(off, off + 4) =~= be_bytes(v, 4));
    if other + 4 <= off || off + 4 <= other {
        assert(w.subrange(other, other + 4) =~= s.subrange(other, other + 4));
    }
}

/// Writing any other value into one of the three length fields of a frame is
/// detected: the frame is refused rather than read with a wrong payload. For the
/// SubPacket length, whose padding is not checked, the new value must round up to
/// a different multiple of four.
pub proof fn corrupt_length_detected(
    com_id: u16,
    tsn: u32,
    hsn: u32,
    p: Seq<u8>,
    off: int,
    v: u32,
)
    requires
        p.len() <= MAX_PAYLOAD,
        off == 16 || off == 40 || off == 52,
        v != field(frame_spec(com_id, tsn, hsn, p), off),
        off == 52 ==> pad4(v as nat) != pad4(p.len()),
    ensures
        parse_spec(with_field(frame_spec(com_id, tsn, hsn, p), off, v as nat), tsn, hsn) is Err,
{
    let f = frame_spec(com_id, tsn, hsn, p);
    lemma_frame_fields(com_id, tsn, hsn, p);
    lemma_pow256_values();
    lemma_fits_pow(v as nat, 4);
    lemma_with_field(f, off, v as nat, 16);
    lemma_with_field(f, off, v as nat, 40);
    lemma_with_field(f, off, v as nat, 52);
}

fn push_zeros(out: &mut Vec<u8>, n: usize)
    ensures
        final(out)@ == old(out)@ + zeros(n as nat),
{
    let mut i: usize = 0;
    while i < n
        invariant
            i <= n,
            out@ == old(out)@ + zeros(i as nat),
        decreases n - i,
    {
        out.push(0u8);
        i = i + 1;
        assert(out@ =~= old(out)@ + zeros(i as nat));
    }
}

/// Wraps `payload` in the three headers for session `(tsn, hsn)`, padded to a
/// multiple of four bytes.
#[verifier::rlimit(50)]
pub fn frame(com_id: u16, tsn: u32, hsn: u32, payload: &[u8]) -> (r: Vec<u8>)
    requires
        payload@.len() <= MAX_PAYLOAD,
    ensures
        r@ == frame_spec(com_id, tsn, hsn, payload@),
        r@.len() % 4 == 0,
{
    let len = payload.len();
    let padded = (len + 3) / 4 * 4;
    let mut out: Vec<u8> = Vec::new();
    push_be(&mut out, 0, 4);
    push_be(&mut out, com_id as u64, 2);
    push_be(&mut out, 0, 10);
    push_be(&mut out, (36 + padded) as u64, 4);
    push_be(&mut out, tsn as u64, 4);
    push_be(&mut out, hsn as u64, 4);
    push_be(&mut out, 0, 12);
    push_be(&mut out, (12 + padded) as u64, 4);
    push_be(&mut out, 0, 8);
    push_be(&mut out, len as u64, 4);
    push_slice(&mut out, payload);
    push_zeros(&mut out, padded - len);
    assert(out@ =~= frame_spec(com_id, tsn, hsn, payload@));
    proof {
        lemma_frame_fields(com_id, tsn, hsn, payload@);
    }
    out
}

/// Checks the three headers of a received frame and returns its payload.
pub fn parse(buf: &[u8], tsn: u32, hsn: u32) -> (r: Result<Vec<u8>, FrameError>)
    ensures
        match r {
            Ok(p) => parse_spec(buf@, tsn, hsn) == Ok::<Seq<u8>, FrameError>(p@),
            Err(e) => parse_spec(buf@, tsn, hsn) == Err::<Seq<u8>, FrameError>(e),
        },
{
    if buf.len() < HEADER_LEN {
        return Err(FrameError::Format);
    }
    let l1 = read_be(buf, 16, 4);
    let l2 = read_be(buf, 40, 4);
    let l3 = read_be(buf, 52, 4);
    let t = read_be(buf, 20, 4);
    let h = read_be(buf, 24, 4);
    proof {
        lemma_pow256_values();
        crate::bytes::lemma_be_value_bound(buf@.subrange(16, 20));
        crate::bytes::lemma_be_value_bound(buf@.subrange(40, 44));
        crate::bytes::lemma_be_value_bound(buf@.subrange(52, 56));
    }
    if l1 != 24 + l2 || l2 != 12 + (l3 + 3) / 4 * 4 || 20 + l1 > buf.len() as u64 {
        return Err(FrameError::Format);
    }
    if t != tsn as u64 || h != hsn as u64 {
        return Err(FrameError::Desync);
    }
    let part = vstd::slice::slice_subrange(buf, 56, 56 + l3 as usize);
    Ok(vstd::slice::slice_to_vec(part))
}

/// Whether a received buffer carries a response yet: a device that has not
/// finished answers with a ComPacket whose length is zero.
pub fn has_payload(buf: &[u8]) -> (r: bool)
    ensures
        r == (buf@.len() >= 20 && com_packet_len(buf@) != 0),
{
    if buf.len() < 20 {
        return false;
    }
    read_be(buf, 16, 4) != 0
}

} // verus!
