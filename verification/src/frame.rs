//! The framed protocol: a 7-byte header (`cmd`, `sid`, `length`, big-endian)
//! followed by `length` payload bytes.

use vstd::prelude::*;

verus! {

/// Padding bytes; the payload is discarded by the recipient.
pub const CMD_WASTE: u8 = 0;
/// Open the stream `sid`.
pub const CMD_SYN: u8 = 1;
/// Payload for the stream `sid`.
pub const CMD_PSH: u8 = 2;
/// Close the stream `sid`.
pub const CMD_FIN: u8 = 3;
/// Client settings: a `key=value` map.
pub const CMD_SETTINGS: u8 = 4;
/// Fatal message; the recipient closes the session.
pub const CMD_ALERT: u8 = 5;
/// A new padding scheme body, pushed by the server.
pub const CMD_UPDATE_PADDING_SCHEME: u8 = 6;
/// Stream opened; a non-empty payload is an error text.
pub const CMD_SYNACK: u8 = 7;
/// Liveness probe.
pub const CMD_HEART_REQUEST: u8 = 8;
/// Reply to a liveness probe.
pub const CMD_HEART_RESPONSE: u8 = 9;
/// Server settings: a `key=value` map.
pub const CMD_SERVER_SETTINGS: u8 = 10;

/// Bytes of the frame header: cmd(1) + sid(4) + length(2).
pub const HEADER_OVERHEAD_SIZE: usize = 1 + 4 + 2;

/// Largest payload a frame can carry (the length field is 16 bits).
pub const MAX_PAYLOAD_LEN: usize = 65535;

/// Why encoding or decoding could not produce a frame.
#[derive(Debug, Clone, Copy, PartialEq, Eq, Structural)]
pub enum CodecError {
    /// The payload does not fit the 16-bit length field.
    PayloadTooLarge,
    /// The buffer holds less than a whole frame.
    NeedMoreData,
}

/// One frame of the multiplexing protocol.
#[derive(Debug, Clone, PartialEq, Eq)]
pub struct Frame {
    pub cmd: u8,
    pub sid: u32,
    pub data: Vec<u8>,
}

/// The raw header fields, before the payload is read.
#[derive(Debug, Clone, Copy)]
pub struct RawHeader {
    pub cmd: u8,
    pub sid: u32,
    pub length: u16,
}

pub closed spec fn spec_u16_to_be_bytes(x: u16) -> Seq<u8> {
    seq![((x >> 8) & 0xff) as u8, (x & 0xff) as u8]
}

pub closed spec fn spec_u16_from_be_bytes(s: Seq<u8>) -> u16
    recommends
        s.len() == 2,
{
    (((s[0] as u16) << 8) | (s[1] as u16)) as u16
}

pub closed spec fn spec_u32_to_be_bytes(x: u32) -> Seq<u8> {
    seq![
        ((x >> 24) & 0xff) as u8,
        ((x >> 16) & 0xff) as u8,
        ((x >> 8) & 0xff) as u8,
        (x & 0xff) as u8,
    ]
}

pub closed spec fn spec_u32_from_be_bytes(s: Seq<u8>) -> u32
    recommends
        s.len() == 4,
{
    (((s[0] as u32) << 24) | ((s[1] as u32) << 16) | ((s[2] as u32) << 8) | (s[3]
        as u32)) as u32
}

pub proof fn lemma_u16_be_round_trip(x: u16)
    ensures
        spec_u16_to_be_bytes(x).len() == 2,
        spec_u16_from_be_bytes(spec_u16_to_be_bytes(x)) == x,
{
    assert(((((x >> 8) & 0xff) as u16) << 8) | ((x & 0xff) as u16) == x) by (bit_vector);
    assert(((x >> 8) & 0xff) < 256 && (x & 0xff) < 256) by (bit_vector);
}

pub proof fn lemma_u32_be_round_trip(x: u32)
    ensures
        spec_u32_to_be_bytes(x).len() == 4,
        spec_u32_from_be_bytes(spec_u32_to_be_bytes(x)) == x,
{
    assert((((x >> 24) & 0xff) << 24) | (((x >> 16) & 0xff) << 16) | (((x >> 8) & 0xff) << 8) | (x
        & 0xff) == x) by (bit_vector);
    assert(((x >> 24) & 0xff) < 256 && ((x >> 16) & 0xff) < 256 && ((x >> 8) & 0xff) < 256 && (x
        & 0xff) < 256) by (bit_vector);
}

/// The wire bytes of a frame with the given fields.
pub open spec fn spec_frame_bytes(cmd: u8, sid: u32, data: Seq<u8>) -> Seq<u8>
    recommends
        data.len() <= MAX_PAYLOAD_LEN,
{
    seq![cmd] + spec_u32_to_be_bytes(sid) + spec_u16_to_be_bytes(data.len() as u16) + data
}

/// What a buffer decodes to: `None` when it holds less than a whole frame,
/// otherwise the frame fields and the bytes that follow the frame.
pub open spec fn spec_decode(buf: Seq<u8>) -> Option<((u8, u32, Seq<u8>), Seq<u8>)> {
    if buf.len() < HEADER_OVERHEAD_SIZE {
        None
    } else {
        let cmd = buf[0];
        let sid = spec_u32_from_be_bytes(buf.subrange(1, 5));
        let len = spec_u16_from_be_bytes(buf.subrange(5, 7)) as int;
        if buf.len() < HEADER_OVERHEAD_SIZE + len {
            None
        } else {
            Some(
                (
                    (cmd, sid, buf.subrange(7, 7 + len)),
                    buf.subrange(7 + len, buf.len() as int),
                ),
            )
        }
    }
}

pub(crate) fn push_u16_be(out: &mut Vec<u8>, x: u16)
    ensures
        final(out)@ == old(out)@ + spec_u16_to_be_bytes(x),
{
    proof {
        lemma_u16_be_round_trip(x);
    }
    out.push(((x >> 8) & 0xff) as u8);
    out.push((x & 0xff) as u8);
    assert(final(out)@ =~= old(out)@ + spec_u16_to_be_bytes(x));
}

pub(crate) fn push_u32_be(out: &mut Vec<u8>, x: u32)
    ensures
        final(out)@ == old(out)@ + spec_u32_to_be_bytes(x),
{
    proof {
        lemma_u32_be_round_trip(x);
    }
    out.push(((x >> 24) & 0xff) as u8);
    out.push(((x >> 16) & 0xff) as u8);
    out.push(((x >> 8) & 0xff) as u8);
    out.push((x & 0xff) as u8);
    assert(final(out)@ =~= old(out)@ + spec_u32_to_be_bytes(x));
}

pub(crate) fn read_u16_be(buf: &[u8], i: usize) -> (x: u16)
    requires
        i + 2 <= buf@.len(),
    ensures
        x == spec_u16_from_be_bytes(buf@.subrange(i as int, i + 2)),
{
    let _n = buf.len();
    let b0 = *vstd::slice::slice_index_get(buf, i);
    let b1 = *vstd::slice::slice_index_get(buf, i + 1);
    ((b0 as u16) << 8) | (b1 as u16)
}

pub(crate) fn read_u32_be(buf: &[u8], i: usize) -> (x: u32)
    requires
        i + 4 <= buf@.len(),
    ensures
        x == spec_u32_from_be_bytes(buf@.subrange(i as int, i + 4)),
{
    let _n = buf.len();
    let b0 = *vstd::slice::slice_index_get(buf, i);
    let b1 = *vstd::slice::slice_index_get(buf, i + 1);
    let b2 = *vstd::slice::slice_index_get(buf, i + 2);
    let b3 = *vstd::slice::slice_index_get(buf, i + 3);
    ((b0 as u32) << 24) | ((b1 as u32) << 16) | ((b2 as u32) << 8) | (b3 as u32)
}

impl Frame {
    /// A frame without payload.
    pub fn new(cmd: u8, sid: u32) -> (f: Frame)
        ensures
            f.cmd == cmd,
            f.sid == sid,
            f.data@ == Seq::<u8>::empty(),
    {
        let data: Vec<u8> = Vec::new();
        assert(data@ =~= Seq::<u8>::empty());
        Frame { cmd, sid, data }
    }

    /// A frame carrying the given payload.
    pub fn with_data(cmd: u8, sid: u32, data: Vec<u8>) -> (f: Frame)
        ensures
            f.cmd == cmd,
            f.sid == sid,
            f.data == data,
    {
        Frame { cmd, sid, data }
    }

    /// The wire bytes this frame serializes to.
    pub open spec fn wire(self) -> Seq<u8> {
        spec_frame_bytes(self.cmd, self.sid, self.data@)
    }

    /// Serialize the frame; the payload must fit the 16-bit length field.
    pub fn to_bytes(&self) -> (r: Vec<u8>)
        requires
            self.data@.len() <= MAX_PAYLOAD_LEN,
        ensures
            r@ == self.wire(),
            r@.len() == HEADER_OVERHEAD_SIZE + self.data@.len(),
    {
        let mut out: Vec<u8> = Vec::new();
        out.push(self.cmd);
        push_u32_be(&mut out, self.sid);
        push_u16_be(&mut out, self.data.len() as u16);
        out.extend_from_slice(self.data.as_slice());
        assert(out@ =~= self.wire());
        out
    }

    /// Serialize the frame, rejecting a payload that does not fit.
    pub fn encode(&self) -> (r: Result<Vec<u8>, CodecError>)
        ensures
            self.data@.len() <= MAX_PAYLOAD_LEN ==> (r matches Ok(bytes) && bytes@ == self.wire()),
            self.data@.len() > MAX_PAYLOAD_LEN ==> r == Result::<Vec<u8>, CodecError>::Err(
                CodecError::PayloadTooLarge,
            ),
    {
        if self.data.len() > MAX_PAYLOAD_LEN {
            Err(CodecError::PayloadTooLarge)
        } else {
            Ok(self.to_bytes())
        }
    }

    /// Parse one frame from the front of `buf`; the bytes after the frame are
    /// ignored. Fails when `buf` holds less than a whole frame.
    pub fn from_bytes(buf: &[u8]) -> (r: Result<Frame, CodecError>)
        ensures
            match r {
                Ok(f) => {
                    &&& spec_decode(buf@) matches Some(((cmd, sid, data), _rest))
                    &&& f.cmd == cmd
                    &&& f.sid == sid
                    &&& f.data@ == data
                },
                Err(e) => e == CodecError::NeedMoreData && spec_decode(buf@) is None,
            },
    {
        if buf.len() < HEADER_OVERHEAD_SIZE {
            return Err(CodecError::NeedMoreData);
        }
        let cmd = *vstd::slice::slice_index_get(buf, 0);
        let sid = read_u32_be(buf, 1);
        let length = read_u16_be(buf, 5) as usize;
        if buf.len() - HEADER_OVERHEAD_SIZE < length {
            return Err(CodecError::NeedMoreData);
        }
        let payload = vstd::slice::slice_subrange(buf, HEADER_OVERHEAD_SIZE, HEADER_OVERHEAD_SIZE
            + length);
        let data = vstd::slice::slice_to_vec(payload);
        Ok(Frame { cmd, sid, data })
    }
}

/// The outcome of an incremental decode: either a whole frame together with
/// how many bytes of the buffer it used, or a request for more bytes.
pub enum Decoded {
    NeedMore,
    Done(Frame, usize),
}

/// Parse one frame from the front of `buf` without consuming the rest.
pub fn decode(buf: &[u8]) -> (r: Decoded)
    ensures
        match r {
            Decoded::NeedMore => spec_decode(buf@) is None,
            Decoded::Done(f, used) => {
                &&& spec_decode(buf@) matches Some(((cmd, sid, data), rest))
                &&& f.cmd == cmd
                &&& f.sid == sid
                &&& f.data@ == data
                &&& used == HEADER_OVERHEAD_SIZE + data.len()
                &&& used <= buf@.len()
                &&& buf@.subrange(used as int, buf@.len() as int) == rest
            },
        },
{
    if buf.len() < HEADER_OVERHEAD_SIZE {
        return Decoded::NeedMore;
    }
    let cmd = *vstd::slice::slice_index_get(buf, 0);
    let sid = read_u32_be(buf, 1);
    let length = read_u16_be(buf, 5) as usize;
    if buf.len() - HEADER_OVERHEAD_SIZE < length {
        return Decoded::NeedMore;
    }
    let payload = vstd::slice::slice_subrange(buf, HEADER_OVERHEAD_SIZE, HEADER_OVERHEAD_SIZE
        + length);
    let data = vstd::slice::slice_to_vec(payload);
    Decoded::Done(Frame { cmd, sid, data }, HEADER_OVERHEAD_SIZE + length)
}

impl RawHeader {
    /// Parse the 7 header bytes; fails when fewer are given.
    pub fn from_bytes(buf: &[u8]) -> (r: Result<RawHeader, CodecError>)
        ensures
            buf@.len() >= HEADER_OVERHEAD_SIZE ==> (r matches Ok(h) && h.cmd == buf@[0] && h.sid
                == spec_u32_from_be_bytes(buf@.subrange(1, 5)) && h.length
                == spec_u16_from_be_bytes(buf@.subrange(5, 7))),
            buf@.len() < HEADER_OVERHEAD_SIZE ==> r == Result::<RawHeader, CodecError>::Err(
                CodecError::NeedMoreData,
            ),
    {
        if buf.len() < HEADER_OVERHEAD_SIZE {
            return Err(CodecError::NeedMoreData);
        }
        let cmd = *vstd::slice::slice_index_get(buf, 0);
        let sid = read_u32_be(buf, 1);
        let length = read_u16_be(buf, 5);
        Ok(RawHeader { cmd, sid, length })
    }
}

/// Round trip: decoding an encoded frame yields that frame back, with no
/// bytes left over.
pub proof fn lemma_frame_round_trip(cmd: u8, sid: u32, data: Seq<u8>)
    requires
        data.len() <= MAX_PAYLOAD_LEN,
    ensures
        spec_decode(spec_frame_bytes(cmd, sid, data)) == Some(
            ((cmd, sid, data), Seq::<u8>::empty()),
        ),
{
    let bytes = spec_frame_bytes(cmd, sid, data);
    lemma_u32_be_round_trip(sid);
    lemma_u16_be_round_trip(data.len() as u16);
    assert(bytes.subrange(1, 5) =~= spec_u32_to_be_bytes(sid));
    assert(bytes.subrange(5, 7) =~= spec_u16_to_be_bytes(data.len() as u16));
    assert(bytes.subrange(7, 7 + data.len() as int) =~= data);
    assert(bytes.subrange(7 + data.len() as int, bytes.len() as int) =~= Seq::<u8>::empty());
}

} // verus!
