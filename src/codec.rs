//! Length-delimited framing of the transport: each frame is a 4-byte
//! big-endian length followed by that many bytes of payload. Frames longer
//! than `MAX_FRAME_LEN` are refused on both sides.
use bytes::{Bytes, BytesMut};
use tokio_util::codec::{Decoder, Encoder, LengthDelimitedCodec};
use vstd::prelude::*;

verus! {

/// `std::io::Error`, opaque: the codec's error, mapped to `FrameError`.
#[verifier::external_type_specification]
#[verifier::external_body]
pub struct ExIoError(std::io::Error);

/// The largest payload a frame may carry: the codec's default, 8 MiB.
pub const MAX_FRAME_LEN: usize = 8 * 1024 * 1024;

/// Why a frame could not be encoded or decoded.
#[derive(Debug, Clone, Copy, PartialEq, Eq, Structural)]
pub enum FrameError {
    /// The payload, or the length announced on the wire, exceeds `MAX_FRAME_LEN`.
    TooLong,
}

/// The 4-byte big-endian encoding of `n`.
pub open spec fn be32(n: u32) -> Seq<u8> {
    seq![
        #[verifier::truncate] ((n >> 24u32) as u8),
        #[verifier::truncate] ((n >> 16u32) as u8),
        #[verifier::truncate] ((n >> 8u32) as u8),
        #[verifier::truncate] (n as u8),
    ]
}

/// The number that the first four bytes of `b` encode, big-endian.
pub open spec fn be32_value(b: Seq<u8>) -> nat
    recommends
        b.len() >= 4,
{
    (((b[0] as u32) << 24u32) | ((b[1] as u32) << 16u32) | ((b[2] as u32) << 8u32) | (b[3] as u32)) as nat
}

/// The frame that carries `p`.
pub open spec fn frame_of(p: Seq<u8>) -> Seq<u8> {
    be32(p.len() as u32) + p
}

/// What the front of `buf` holds: `Ok(Some(payload))` for a whole frame,
/// `Ok(None)` while a frame is still incomplete, `Err` for a frame announced
/// longer than `MAX_FRAME_LEN`.
pub open spec fn parse_frame(buf: Seq<u8>) -> Result<Option<Seq<u8>>, FrameError> {
    if buf.len() < 4 {
        Ok(None)
    } else if be32_value(buf) > MAX_FRAME_LEN {
        Err(FrameError::TooLong)
    } else if buf.len() < 4 + be32_value(buf) {
        Ok(None)
    } else {
        Ok(Some(buf.subrange(4, 4 + be32_value(buf) as int)))
    }
}

/// Relies on `LengthDelimitedCodec::encode` with the default settings: a
/// 4-byte big-endian length, then the payload; an error for a payload over
/// the maximum frame length.
#[verifier::external_body]
fn codec_encode(payload: &Vec<u8>) -> (r: Result<Vec<u8>, std::io::Error>)
    ensures
        r.is_err() == (payload@.len() > MAX_FRAME_LEN),
        r matches Ok(b) ==> b@ == frame_of(payload@),
{
    let mut codec = LengthDelimitedCodec::new();
    let mut dst = BytesMut::new();
    match codec.encode(Bytes::from(payload.clone()), &mut dst) {
        Ok(()) => Ok(dst.to_vec()),
        Err(e) => Err(e),
    }
}

/// Relies on `LengthDelimitedCodec::decode` with the default settings, run
/// by a fresh codec on a copy of `buf`: nothing until four bytes are there,
/// an error for an announced length over the maximum, nothing until the
/// whole payload is there, then the payload.
#[verifier::external_body]
fn codec_decode(buf: &[u8]) -> (r: Result<Option<Vec<u8>>, std::io::Error>)
    ensures
        match parse_frame(buf@) {
            Ok(None) => r matches Ok(None),
            Ok(Some(p)) => r matches Ok(Some(v)) && v@ == p,
            Err(_) => r.is_err(),
        },
{
    let mut codec = LengthDelimitedCodec::new();
    let mut src = BytesMut::from(buf);
    match codec.decode(&mut src) {
        Ok(Some(frame)) => Ok(Some(frame.to_vec())),
        Ok(None) => Ok(None),
        Err(e) => Err(e),
    }
}

/// Frames `payload` for the transport.
pub fn encode_frame(payload: &Vec<u8>) -> (r: Result<Vec<u8>, FrameError>)
    ensures
        payload@.len() > MAX_FRAME_LEN ==> r == Err::<Vec<u8>, FrameError>(FrameError::TooLong),
        payload@.len() <= MAX_FRAME_LEN ==> (r matches Ok(b) && b@ == frame_of(payload@)),
{
    match codec_encode(payload) {
        Ok(b) => Ok(b),
        Err(_) => Err(FrameError::TooLong),
    }
}

/// Reassembles frames from the transport's bytes, whatever their chunking.
pub struct FrameReader {
    buf: Vec<u8>,
}

impl View for FrameReader {
    type V = Seq<u8>;

    /// The bytes received and not yet taken as frames.
    closed spec fn view(&self) -> Seq<u8> {
        self.buf@
    }
}

impl FrameReader {
    pub fn new() -> (r: FrameReader)
        ensures
            r@ == Seq::<u8>::empty(),
    {
        FrameReader { buf: Vec::new() }
    }

    /// Appends bytes read from the transport.
    pub fn push(&mut self, bytes: &[u8])
        ensures
            final(self)@ == old(self)@ + bytes@,
    {
        self.buf.extend_from_slice(bytes);
        assert(self.buf@ =~= old(self)@ + bytes@);
    }

    /// Takes the next whole frame's payload off the front, if there is one.
    /// On an error the buffer is left as it was.
    pub fn next_frame(&mut self) -> (r: Result<Option<Vec<u8>>, FrameError>)
        ensures
            match parse_frame(old(self)@) {
                Ok(None) => r matches Ok(None) && final(self)@ == old(self)@,
                Ok(Some(p)) => {
                    &&& r matches Ok(Some(v)) && v@ == p
                    &&& final(self)@ == old(self)@.subrange(4 + p.len() as int, old(self)@.len() as int)
                },
                Err(e) => r == Err::<Option<Vec<u8>>, FrameError>(e) && final(self)@ == old(self)@,
            },
    {
        match codec_decode(self.buf.as_slice()) {
            Err(_) => Err(FrameError::TooLong),
            Ok(None) => Ok(None),
            Ok(Some(p)) => {
                let used = 4 + p.len();
                let rest = self.buf.split_off(used);
                self.buf = rest;
                Ok(Some(p))
            },
        }
    }
}

/// The frames of `ps`, one after another.
pub open spec fn frames_of(ps: Seq<Seq<u8>>) -> Seq<u8>
    decreases ps.len(),
{
    if ps.len() == 0 {
        seq![]
    } else {
        frame_of(ps[0]) + frames_of(ps.drop_first())
    }
}

/// The payloads taken off the front of `buf` by `n` calls of `parse_frame`,
/// as far as they succeed.
pub open spec fn parse_frames(buf: Seq<u8>, n: nat) -> Seq<Seq<u8>>
    decreases n,
{
    if n == 0 {
        seq![]
    } else {
        match parse_frame(buf) {
            Ok(Some(p)) => seq![p] + parse_frames(buf.subrange(4 + p.len() as int, buf.len() as int), (n - 1) as nat),
            _ => seq![],
        }
    }
}

/// The length prefix reads back as the length it encodes.
pub proof fn lemma_be32_round_trip(n: u32)
    ensures
        be32_value(be32(n)) == n,
{
    assert(((((#[verifier::truncate] ((n >> 24u32) as u8)) as u32) << 24u32) | (((
    #[verifier::truncate] ((n >> 16u32) as u8)) as u32) << 16u32) | (((#[verifier::truncate] ((n
        >> 8u32) as u8)) as u32) << 8u32) | ((#[verifier::truncate] (n as u8)) as u32)) == n)
        by (bit_vector);
}

/// A frame followed by anything parses back to its payload.
pub proof fn lemma_frame_parses(p: Seq<u8>, rest: Seq<u8>)
    requires
        p.len() <= MAX_FRAME_LEN,
    ensures
        parse_frame(frame_of(p) + rest) == Ok::<Option<Seq<u8>>, FrameError>(Some(p)),
        (frame_of(p) + rest).subrange(4 + p.len() as int, (frame_of(p) + rest).len() as int) == rest,
{
    let b = frame_of(p) + rest;
    lemma_be32_round_trip(p.len() as u32);
    assert(b.subrange(0, 4) =~= be32(p.len() as u32));
    assert(be32_value(b) == be32_value(be32(p.len() as u32)));
    assert(b.subrange(4, 4 + p.len() as int) =~= p);
    assert(b.subrange(4 + p.len() as int, b.len() as int) =~= rest);
}

/// Frames come out of the byte stream in the order they went in, each with
/// its payload intact.
pub proof fn lemma_frames_in_order(ps: Seq<Seq<u8>>)
    requires
        forall|i: int| 0 <= i < ps.len() ==> (#[trigger] ps[i]).len() <= MAX_FRAME_LEN,
    ensures
        parse_frames(frames_of(ps), ps.len()) == ps,
    decreases ps.len(),
{
    if ps.len() > 0 {
        let rest = ps.drop_first();
        assert forall|i: int| 0 <= i < rest.len() implies (#[trigger] rest[i]).len()
            <= MAX_FRAME_LEN by {
            assert(rest[i] == ps[i + 1]);
        }
        lemma_frames_in_order(rest);
        lemma_frame_parses(ps[0], frames_of(rest));
        assert(seq![ps[0]] + rest =~= ps);
    }
}

} // verus!
