//! Frames: a fixed header (`msg_id: u64 | msg_type: u8 | msg_len: u32`,
//! little-endian) followed by `msg_len` payload bytes.
use vstd::prelude::*;
use crate::wire::{
    get_u32, get_u64, get_u8, le_bytes, le_value, lemma_byte_bounds, lemma_le_round_trip, put_u32,
    put_u64, put_u8,
};

verus! {

/// Bytes in a frame header.
pub const HDR_LEN: usize = 13;

/// The largest payload either end accepts; larger frames break the protocol.
pub const MAX_PAYLOAD: u32 = 65536;

/// What can go wrong in a call or while serving one.
#[derive(PartialEq, Eq, Structural, Clone, Copy, Debug)]
pub enum RpcError {
    /// The peer closed or reset the connection.
    ConnectionClosed,
    /// A frame was cut short or its header is unreadable.
    MalformedFrame,
    /// A frame claims, or would need, a payload over `MAX_PAYLOAD`.
    PayloadTooLarge,
    /// A payload does not hold the record its operation calls for.
    MalformedPayload,
    /// The reply does not fit the buffers given for it, or a path or page
    /// is over its bound.
    BufferTooSmall,
    /// A path is longer than a request may carry.
    PathTooLong,
    /// An operation was registered twice.
    DuplicateRegistration,
    /// The server had no handler for the operation, or could not read the
    /// request, and answered with an error frame.
    Rejected,
}

/// The header of a frame.
#[derive(PartialEq, Eq, Structural, Clone, Copy, Debug)]
pub struct RpcHeader {
    pub msg_id: u64,
    pub msg_type: u8,
    pub msg_len: u32,
}

impl RpcHeader {
    pub open spec fn spec_encode(&self) -> Seq<u8> {
        le_bytes(self.msg_id as nat, 8) + seq![self.msg_type] + le_bytes(self.msg_len as nat, 4)
    }

    pub fn encode(&self) -> (r: Vec<u8>)
        ensures
            r@ == self.spec_encode(),
            r@.len() == HDR_LEN,
    {
        let mut buf: Vec<u8> = Vec::new();
        put_u64(&mut buf, self.msg_id);
        put_u8(&mut buf, self.msg_type);
        put_u32(&mut buf, self.msg_len);
        proof {
            crate::wire::lemma_le_bytes_len(self.msg_id as nat, 8);
            crate::wire::lemma_le_bytes_len(self.msg_len as nat, 4);
        }
        buf
    }

    /// Reads a header from the start of `b`.
    pub fn decode(b: &[u8]) -> (r: Option<RpcHeader>)
        ensures
            r == spec_decode_header(b@),
    {
        if b.len() < HDR_LEN {
            return None;
        }
        let msg_id = match get_u64(b, 0) {
            Some(v) => v,
            None => return None,
        };
        let msg_type = match get_u8(b, 8) {
            Some(v) => v,
            None => return None,
        };
        let msg_len = match get_u32(b, 9) {
            Some(v) => v,
            None => return None,
        };
        proof {
            assert(b@.skip(0).take(8) =~= b@.subrange(0, 8));
            assert(b@.skip(9).take(4) =~= b@.subrange(9, 13));
        }
        Some(RpcHeader { msg_id, msg_type, msg_len })
    }
}

/// The header at the start of `s`, if `s` is long enough to hold one.
pub open spec fn spec_decode_header(s: Seq<u8>) -> Option<RpcHeader> {
    if s.len() >= HDR_LEN {
        Some(
            RpcHeader {
                msg_id: le_value(s.subrange(0, 8)) as u64,
                msg_type: s[8],
                msg_len: le_value(s.subrange(9, 13)) as u32,
            },
        )
    } else {
        None
    }
}

/// The bytes of a frame with header `h` and payload `p`.
pub open spec fn spec_frame(h: RpcHeader, p: Seq<u8>) -> Seq<u8> {
    h.spec_encode() + p
}

/// What a frame at the start of `s` holds: its header and payload, or why
/// it cannot be read. The payload is never read past the end of `s`.
pub open spec fn spec_decode_frame(s: Seq<u8>) -> Result<(RpcHeader, Seq<u8>), RpcError> {
    match spec_decode_header(s) {
        None => Err(RpcError::MalformedFrame),
        Some(h) => if h.msg_len > MAX_PAYLOAD {
            Err(RpcError::PayloadTooLarge)
        } else if s.len() < HDR_LEN + h.msg_len {
            Err(RpcError::MalformedFrame)
        } else {
            Ok((h, s.subrange(HDR_LEN as int, HDR_LEN + h.msg_len)))
        },
    }
}

/// Builds the frame that carries `payload` as operation `msg_type`, with
/// `msg_len` set to the payload's length.
pub fn encode_frame(msg_id: u64, msg_type: u8, payload: &[u8]) -> (r: Result<Vec<u8>, RpcError>)
    ensures
        match r {
            Ok(bytes) => payload@.len() <= MAX_PAYLOAD && bytes@ == spec_frame(
                RpcHeader { msg_id, msg_type, msg_len: payload@.len() as u32 },
                payload@,
            ),
            Err(e) => e == RpcError::PayloadTooLarge && payload@.len() > MAX_PAYLOAD,
        },
{
    if payload.len() > MAX_PAYLOAD as usize {
        return Err(RpcError::PayloadTooLarge);
    }
    let h = RpcHeader { msg_id, msg_type, msg_len: payload.len() as u32 };
    let mut bytes = h.encode();
    let mut i: usize = 0;
    let ghost head = bytes@;
    while i < payload.len()
        invariant
            i <= payload@.len(),
            bytes@ == head + payload@.take(i as int),
        decreases payload@.len() - i,
    {
        bytes.push(payload[i]);
        i = i + 1;
        assert(bytes@ =~= head + payload@.take(i as int));
    }
    assert(payload@.take(payload@.len() as int) =~= payload@);
    Ok(bytes)
}

/// Reads the frame at the start of `b`.
pub fn decode_frame(b: &[u8]) -> (r: Result<(RpcHeader, Vec<u8>), RpcError>)
    ensures
        match r {
            Ok((h, p)) => spec_decode_frame(b@) == Ok::<(RpcHeader, Seq<u8>), RpcError>((h, p@))
                && h.msg_len == p@.len(),
            Err(e) => spec_decode_frame(b@) == Err::<(RpcHeader, Seq<u8>), RpcError>(e),
        },
{
    let h = match RpcHeader::decode(b) {
        Some(h) => h,
        None => return Err(RpcError::MalformedFrame),
    };
    if h.msg_len > MAX_PAYLOAD {
        return Err(RpcError::PayloadTooLarge);
    }
    if b.len() - HDR_LEN < h.msg_len as usize {
        return Err(RpcError::MalformedFrame);
    }
    let end: usize = HDR_LEN + h.msg_len as usize;
    let mut p: Vec<u8> = Vec::new();
    let mut i: usize = HDR_LEN;
    while i < end
        invariant
            HDR_LEN <= i <= end <= b@.len(),
            p@ == b@.subrange(HDR_LEN as int, i as int),
        decreases end - i,
    {
        p.push(b[i]);
        i = i + 1;
        assert(p@ =~= b@.subrange(HDR_LEN as int, i as int));
    }
    Ok((h, p))
}

/// A frame read back from its own bytes, whatever follows them, gives the
/// same header and payload.
pub proof fn lemma_frame_round_trip(h: RpcHeader, p: Seq<u8>, rest: Seq<u8>)
    requires
        h.msg_len == p.len(),
        p.len() <= MAX_PAYLOAD,
    ensures
        spec_decode_frame(spec_frame(h, p) + rest) == Ok::<(RpcHeader, Seq<u8>), RpcError>((h, p)),
{
    lemma_byte_bounds();
    lemma_le_round_trip(h.msg_id as nat, 8);
    lemma_le_round_trip(h.msg_len as nat, 4);
    let s = spec_frame(h, p) + rest;
    assert(s.subrange(0, 8) =~= le_bytes(h.msg_id as nat, 8));
    assert(s.subrange(9, 13) =~= le_bytes(h.msg_len as nat, 4));
    assert(s.subrange(HDR_LEN as int, HDR_LEN + h.msg_len) =~= p);
}

/// Whatever frame is read from `s`, its `msg_len` is the length of the
/// payload it yields, and the frame is exactly the bytes it was read from.
pub proof fn lemma_decoded_frame_integrity(s: Seq<u8>)
    ensures
        spec_decode_frame(s) is Ok ==> {
            let (g, q) = spec_decode_frame(s)->Ok_0;
            &&& g.msg_len == q.len()
            &&& spec_frame(g, q) == s.take(HDR_LEN + q.len())
        },
{
    if spec_decode_frame(s) is Ok {
        let (g, q) = spec_decode_frame(s)->Ok_0;
        lemma_le_value_prefix(s);
        assert(spec_frame(g, q) =~= s.take(HDR_LEN + q.len()));
    }
}

/// A frame whose header claims more payload than the buffer holds is
/// refused as malformed, and one that claims more than `MAX_PAYLOAD` as too
/// large; nothing past the end of the buffer is read either way.
pub proof fn lemma_short_frame_fails(s: Seq<u8>)
    requires
        spec_decode_header(s) is Some,
    ensures
        spec_decode_header(s)->Some_0.msg_len > MAX_PAYLOAD ==> spec_decode_frame(s) == Err::<
            (RpcHeader, Seq<u8>),
            RpcError,
        >(RpcError::PayloadTooLarge),
        spec_decode_header(s)->Some_0.msg_len <= MAX_PAYLOAD && s.len() < HDR_LEN
            + spec_decode_header(s)->Some_0.msg_len ==> spec_decode_frame(s) == Err::<
            (RpcHeader, Seq<u8>),
            RpcError,
        >(RpcError::MalformedFrame),
{
}

proof fn lemma_le_value_prefix(s: Seq<u8>)
    requires
        s.len() >= HDR_LEN,
    ensures
        spec_decode_header(s)->Some_0.spec_encode() =~= s.take(HDR_LEN as int),
{
    let a = s.subrange(0, 8);
    let c = s.subrange(9, 13);
    crate::wire::lemma_le_value_bound(a);
    crate::wire::lemma_le_value_bound(c);
    lemma_byte_bounds();
    lemma_le_bytes_of_value(a);
    lemma_le_bytes_of_value(c);
    assert(s.take(HDR_LEN as int) =~= a + seq![s[8]] + c);
}

/// Spelling out the value of some bytes gives those bytes back.
pub proof fn lemma_le_bytes_of_value(s: Seq<u8>)
    ensures
        le_bytes(le_value(s), s.len()) =~= s,
    decreases s.len(),
{
    if s.len() > 0 {
        let t = s.drop_first();
        lemma_le_bytes_of_value(t);
        let v = le_value(s);
        assert(v % 256 == s[0] as nat && v / 256 == le_value(t)) by (nonlinear_arith)
            requires
                v == s[0] as nat + 256 * le_value(t),
                s[0] < 256,
        ;
        assert(le_bytes(v, s.len()) == seq![(v % 256) as u8] + le_bytes(v / 256, (s.len() - 1) as nat));
    }
}

} // verus!
