//! Length-prefixed framing over a byte buffer.
//!
//! A frame is a two-byte little-endian length followed by exactly that many
//! payload bytes. The decoder consumes a growing buffer incrementally and hands
//! out one payload at a time; the encoder appends one frame per payload.

use bytes::Buf;
use bytes::BufMut;
use bytes::BytesMut;
use std::marker::PhantomData;
use vstd::prelude::*;

verus! {

/// The largest payload that the two-byte length field can describe.
pub const MAX_PAYLOAD_LEN: usize = 65535;

#[verifier::external_type_specification]
#[verifier::external_body]
pub struct ExBytesMut(BytesMut);

/// The bytes that a `BytesMut` holds, first to last.
pub uninterp spec fn buffer_bytes(buf: BytesMut) -> Seq<u8>;

/// `BytesMut::new`: a buffer that holds no bytes.
#[verifier::external_body]
pub(crate) fn buffer_new() -> (buf: BytesMut)
    ensures
        buffer_bytes(buf) == Seq::<u8>::empty(),
{
    BytesMut::new()
}

/// `BytesMut::len`: the number of bytes held.
#[verifier::external_body]
pub(crate) fn buffer_len(buf: &BytesMut) -> (len: usize)
    ensures
        len == buffer_bytes(*buf).len(),
{
    buf.len()
}

/// `Buf::get_u16_le` on a `BytesMut`: reads the first two bytes as a
/// little-endian integer and removes them. It panics on a shorter buffer,
/// which the precondition rules out.
#[verifier::external_body]
pub(crate) fn buffer_get_u16_le(buf: &mut BytesMut) -> (value: u16)
    requires
        buffer_bytes(*old(buf)).len() >= 2,
    ensures
        value == le16(buffer_bytes(*old(buf))[0], buffer_bytes(*old(buf))[1]),
        buffer_bytes(*final(buf)) == buffer_bytes(*old(buf)).skip(2),
{
    buf.get_u16_le()
}

/// `BytesMut::reserve`: makes room for `additional` more bytes and leaves the
/// contents as they are. It panics when the length plus `additional` exceeds
/// `usize::MAX`, which the precondition rules out.
#[verifier::external_body]
pub(crate) fn buffer_reserve(buf: &mut BytesMut, additional: usize)
    requires
        buffer_bytes(*old(buf)).len() + additional <= usize::MAX,
    ensures
        buffer_bytes(*final(buf)) == buffer_bytes(*old(buf)),
{
    buf.reserve(additional)
}

/// `BytesMut::split_to`: removes the first `at` bytes and returns them as a
/// buffer of their own. It panics when `at` exceeds the length, which the
/// precondition rules out.
#[verifier::external_body]
pub(crate) fn buffer_split_to(buf: &mut BytesMut, at: usize) -> (head: BytesMut)
    requires
        at <= buffer_bytes(*old(buf)).len(),
    ensures
        buffer_bytes(head) == buffer_bytes(*old(buf)).take(at as int),
        buffer_bytes(*final(buf)) == buffer_bytes(*old(buf)).skip(at as int),
{
    buf.split_to(at)
}

/// `BufMut::put_u16_le` on a `BytesMut`: appends the low byte of `value`, then
/// its high byte.
#[verifier::external_body]
pub(crate) fn buffer_put_u16_le(buf: &mut BytesMut, value: u16)
    ensures
        buffer_bytes(*final(buf)) == buffer_bytes(*old(buf)) + le16_bytes(value as nat),
{
    buf.put_u16_le(value)
}

/// `BytesMut::extend_from_slice`: appends the bytes of `bytes` in order.
#[verifier::external_body]
pub(crate) fn buffer_extend_from_slice(buf: &mut BytesMut, bytes: &[u8])
    ensures
        buffer_bytes(*final(buf)) == buffer_bytes(*old(buf)) + bytes@,
{
    buf.extend_from_slice(bytes)
}

/// The integer that two bytes spell in little-endian order.
pub open spec fn le16(lo: u8, hi: u8) -> nat {
    (lo + 256 * hi) as nat
}

/// The two bytes that spell `n` in little-endian order.
pub open spec fn le16_bytes(n: nat) -> Seq<u8> {
    seq![(n % 256) as u8, ((n / 256) % 256) as u8]
}

/// The frame that carries `payload`: its length in two bytes, then the payload.
pub open spec fn frame_of(payload: Seq<u8>) -> Seq<u8> {
    le16_bytes(payload.len()) + payload
}

/// Where a decoder stands between two frames.
#[derive(Debug, Clone, Copy, PartialEq, Eq, Structural)]
pub enum DecodeState {
    /// The next bytes are a length field.
    Head,
    /// A length field was read; that many payload bytes are awaited.
    Body(u16),
}

/// The outcome of one decoding attempt: the state and the buffer afterwards,
/// and the payload that was completed, if one was.
pub struct DecodeStep {
    pub state: DecodeState,
    pub rest: Seq<u8>,
    pub payload: Option<Seq<u8>>,
}

/// Decoding once a length `n` is known: waits until `n` bytes are there, then
/// takes exactly those.
pub open spec fn decode_body(n: nat, buf: Seq<u8>) -> DecodeStep {
    if buf.len() < n {
        DecodeStep { state: DecodeState::Body(n as u16), rest: buf, payload: None }
    } else {
        DecodeStep {
            state: DecodeState::Head,
            rest: buf.skip(n as int),
            payload: Some(buf.take(n as int)),
        }
    }
}

/// One decoding attempt on the buffered bytes `buf` from `state`.
pub open spec fn decode_step(state: DecodeState, buf: Seq<u8>) -> DecodeStep {
    match state {
        DecodeState::Head => {
            if buf.len() < 2 {
                DecodeStep { state: DecodeState::Head, rest: buf, payload: None }
            } else {
                decode_body(le16(buf[0], buf[1]), buf.skip(2))
            }
        },
        DecodeState::Body(n) => decode_body(n as nat, buf),
    }
}

/// The payload of an optional buffer, as bytes.
pub open spec fn payload_bytes(payload: Option<BytesMut>) -> Option<Seq<u8>> {
    match payload {
        Some(buf) => Some(buffer_bytes(buf)),
        None => None,
    }
}

/// Splits a stream of bytes into the payloads of its frames.
pub struct BincodeDecoder<T> {
    decode_state: DecodeState,
    _phantom_data: PhantomData<T>,
}

impl<T> BincodeDecoder<T> {
    /// The state this decoder is in.
    pub closed spec fn state(&self) -> DecodeState {
        self.decode_state
    }

    /// A decoder that awaits a length field.
    pub fn new() -> (decoder: Self)
        ensures
            decoder.state() == DecodeState::Head,
    {
        BincodeDecoder { decode_state: DecodeState::Head, _phantom_data: PhantomData }
    }

    /// The state this decoder is in.
    pub fn decode_state(&self) -> (state: DecodeState)
        ensures
            state == self.state(),
    {
        self.decode_state
    }

    /// Tries to take one payload off the front of `src`.
    ///
    /// A length field is consumed as soon as its two bytes are there, and the
    /// payload as soon as all of its bytes are there. With too few bytes the
    /// buffer keeps what is not yet consumed and `None` is returned.
    pub fn decode(&mut self, src: &mut BytesMut) -> (payload: Option<BytesMut>)
        ensures
            final(self).state() == decode_step(old(self).state(), buffer_bytes(*old(src))).state,
            buffer_bytes(*final(src)) == decode_step(
                old(self).state(),
                buffer_bytes(*old(src)),
            ).rest,
            payload_bytes(payload) == decode_step(
                old(self).state(),
                buffer_bytes(*old(src)),
            ).payload,
    {
        let body_length: u16 = match self.decode_state {
            DecodeState::Head => {
                if buffer_len(src) < 2 {
                    return None;
                }
                let declared: u16 = buffer_get_u16_le(src);
                if declared as usize <= usize::MAX - buffer_len(src) {
                    buffer_reserve(src, declared as usize);
                }
                self.decode_state = DecodeState::Body(declared);
                declared
            },
            DecodeState::Body(declared) => declared,
        };
        if buffer_len(src) < body_length as usize {
            None
        } else {
            let body: BytesMut = buffer_split_to(src, body_length as usize);
            self.decode_state = DecodeState::Head;
            Some(body)
        }
    }
}

/// Why a payload could not be framed.
#[derive(Debug, Clone, Copy, PartialEq, Eq, Structural)]
pub enum EncodeError {
    /// The payload is longer than the length field can describe.
    PayloadTooLong,
}

/// Appends payloads to a stream of bytes, one frame each.
pub struct BincodeEncoder<T> {
    _phantom_data: PhantomData<T>,
}

impl<T> BincodeEncoder<T> {
    /// An encoder; it keeps nothing between two payloads.
    pub fn new() -> (encoder: Self) {
        BincodeEncoder { _phantom_data: PhantomData }
    }

    /// Appends the frame of `payload` to `dst`.
    ///
    /// A payload of more than `MAX_PAYLOAD_LEN` bytes is refused, and `dst`
    /// is then left as it was.
    pub fn encode(&mut self, payload: &[u8], dst: &mut BytesMut) -> (result: Result<
        (),
        EncodeError,
    >)
        ensures
            result is Ok <==> payload@.len() <= MAX_PAYLOAD_LEN,
            result is Ok ==> buffer_bytes(*final(dst)) == buffer_bytes(*old(dst)) + frame_of(
                payload@,
            ),
            result matches Err(error) ==> error == EncodeError::PayloadTooLong && buffer_bytes(
                *final(dst),
            ) == buffer_bytes(*old(dst)),
    {
        if payload.len() > MAX_PAYLOAD_LEN {
            return Err(EncodeError::PayloadTooLong);
        }
        buffer_put_u16_le(dst, payload.len() as u16);
        buffer_extend_from_slice(dst, payload);
        proof {
            assert(buffer_bytes(*dst) =~= buffer_bytes(*old(dst)) + frame_of(payload@));
        }
        Ok(())
    }
}

/// The bytes that a decoder has received and not yet handed out as a payload:
/// the length field it may already have consumed, then its buffer.
pub open spec fn pending(state: DecodeState, buf: Seq<u8>) -> Seq<u8> {
    match state {
        DecodeState::Head => buf,
        DecodeState::Body(n) => le16_bytes(n as nat) + buf,
    }
}

/// Whether `prefix` is a beginning of `whole` that stops short of its end.
pub open spec fn is_proper_prefix(prefix: Seq<u8>, whole: Seq<u8>) -> bool {
    prefix.len() < whole.len() && prefix == whole.take(prefix.len() as int)
}

/// What a decoder yields when it receives `chunks` one after the other and
/// attempts one decoding after each: the state and the buffer at the end, and
/// the outcome of every attempt in order.
pub open spec fn feed_all(state: DecodeState, buf: Seq<u8>, chunks: Seq<Seq<u8>>) -> (
    DecodeState,
    Seq<u8>,
    Seq<Option<Seq<u8>>>,
)
    decreases chunks.len(),
{
    if chunks.len() == 0 {
        (state, buf, Seq::empty())
    } else {
        let step = decode_step(state, buf + chunks[0]);
        let later = feed_all(step.state, step.rest, chunks.skip(1));
        (later.0, later.1, seq![step.payload] + later.2)
    }
}

/// A length field spells the length it was written from.
pub proof fn lemma_le16_round_trip(n: nat)
    requires
        n <= MAX_PAYLOAD_LEN,
    ensures
        le16_bytes(n).len() == 2,
        le16(le16_bytes(n)[0], le16_bytes(n)[1]) == n,
{
}

/// The length field of a frame equals the number of payload bytes, whatever
/// those bytes are, and the payload follows it unchanged.
pub proof fn lemma_frame_length_prefix(payload: Seq<u8>)
    requires
        payload.len() <= MAX_PAYLOAD_LEN,
    ensures
        frame_of(payload).len() == payload.len() + 2,
        le16(frame_of(payload)[0], frame_of(payload)[1]) == payload.len(),
        frame_of(payload).skip(2) == payload,
{
    lemma_le16_round_trip(payload.len());
    assert(frame_of(payload).skip(2) =~= payload);
}

/// Decoding a frame gives back its payload, consumes exactly the frame and
/// leaves the decoder awaiting the next length field.
pub proof fn lemma_decode_inverts_encode(payload: Seq<u8>, rest: Seq<u8>)
    requires
        payload.len() <= MAX_PAYLOAD_LEN,
    ensures
        decode_step(DecodeState::Head, frame_of(payload) + rest) == (DecodeStep {
            state: DecodeState::Head,
            rest,
            payload: Some(payload),
        }),
{
    lemma_decode_completes(DecodeState::Head, frame_of(payload) + rest, payload, rest);
}

/// While the bytes received so far stop short of the end of a frame, a
/// decoding attempt yields no payload and loses none of those bytes.
pub proof fn lemma_decode_waits(state: DecodeState, buf: Seq<u8>, payload: Seq<u8>)
    requires
        payload.len() <= MAX_PAYLOAD_LEN,
        is_proper_prefix(pending(state, buf), frame_of(payload)),
    ensures
        decode_step(state, buf).payload is None,
        pending(decode_step(state, buf).state, decode_step(state, buf).rest) == pending(
            state,
            buf,
        ),
{
    let frame = frame_of(payload);
    let received = pending(state, buf);
    lemma_frame_length_prefix(payload);
    match state {
        DecodeState::Head => {
            if buf.len() >= 2 {
                assert(buf[0] == frame[0] && buf[1] == frame[1]);
                assert(le16_bytes(payload.len()) + buf.skip(2) =~= buf);
            }
        },
        DecodeState::Body(n) => {
            lemma_le16_round_trip(n as nat);
            assert(received[0] == frame[0] && received[1] == frame[1]);
            assert(n == payload.len());
        },
    }
}

/// Once the bytes received reach the end of a frame, a decoding attempt
/// yields its payload and keeps exactly what follows the frame.
pub proof fn lemma_decode_completes(
    state: DecodeState,
    buf: Seq<u8>,
    payload: Seq<u8>,
    rest: Seq<u8>,
)
    requires
        payload.len() <= MAX_PAYLOAD_LEN,
        pending(state, buf) == frame_of(payload) + rest,
    ensures
        decode_step(state, buf) == (DecodeStep {
            state: DecodeState::Head,
            rest,
            payload: Some(payload),
        }),
{
    let frame = frame_of(payload);
    let received = pending(state, buf);
    lemma_frame_length_prefix(payload);
    assert(received[0] == frame[0] && received[1] == frame[1]);
    let body = match state {
        DecodeState::Head => buf.skip(2),
        DecodeState::Body(n) => buf,
    };
    match state {
        DecodeState::Head => {},
        DecodeState::Body(n) => {
            lemma_le16_round_trip(n as nat);
            assert(n == payload.len());
        },
    }
    assert(body =~= payload + rest) by {
        assert(body =~= received.skip(2));
    }
    assert(body.take(payload.len() as int) =~= payload);
    assert(body.skip(payload.len() as int) =~= rest);
}

/// A frame that arrives in two pieces, cut anywhere before its end, decodes
/// as it does in one piece: nothing after the first piece, the payload after
/// the second.
pub proof fn lemma_decode_in_two_chunks(payload: Seq<u8>, cut: int)
    requires
        payload.len() <= MAX_PAYLOAD_LEN,
        0 <= cut < frame_of(payload).len(),
    ensures
        ({
            let frame = frame_of(payload);
            let first = decode_step(DecodeState::Head, frame.take(cut));
            let second = decode_step(first.state, first.rest + frame.skip(cut));
            &&& first.payload is None
            &&& second == decode_step(DecodeState::Head, frame)
            &&& second == (DecodeStep {
                state: DecodeState::Head,
                rest: Seq::empty(),
                payload: Some(payload),
            })
        }),
{
    let frame = frame_of(payload);
    let first = decode_step(DecodeState::Head, frame.take(cut));
    assert(frame.take(cut).take(cut) =~= frame.take(cut));
    lemma_decode_waits(DecodeState::Head, frame.take(cut), payload);
    lemma_pending_appends(first.state, first.rest, frame.skip(cut));
    assert(frame.take(cut) + frame.skip(cut) =~= frame);
    assert(frame + Seq::<u8>::empty() =~= frame);
    lemma_decode_completes(
        first.state,
        first.rest + frame.skip(cut),
        payload,
        Seq::<u8>::empty(),
    );
    lemma_decode_completes(DecodeState::Head, frame, payload, Seq::<u8>::empty());
}

/// Bytes that arrive join the end of what is pending.
pub proof fn lemma_pending_appends(state: DecodeState, buf: Seq<u8>, chunk: Seq<u8>)
    ensures
        pending(state, buf + chunk) == pending(state, buf) + chunk,
{
    match state {
        DecodeState::Head => {},
        DecodeState::Body(n) => {
            assert(le16_bytes(n as nat) + (buf + chunk) =~= (le16_bytes(n as nat) + buf) + chunk);
        },
    }
}

/// A frame that arrives in any number of pieces, the last of them not empty,
/// decodes as it does in one piece: every attempt before the last yields
/// nothing, the last yields the payload, and the decoder ends awaiting the
/// next length field with an empty buffer. Pieces of one byte each are one
/// such case.
pub proof fn lemma_decode_in_chunks(
    state: DecodeState,
    buf: Seq<u8>,
    chunks: Seq<Seq<u8>>,
    payload: Seq<u8>,
)
    requires
        payload.len() <= MAX_PAYLOAD_LEN,
        chunks.len() > 0,
        chunks.last().len() > 0,
        pending(state, buf) + chunks.flatten() == frame_of(payload),
    ensures
        feed_all(state, buf, chunks).0 == DecodeState::Head,
        feed_all(state, buf, chunks).1 == Seq::<u8>::empty(),
        feed_all(state, buf, chunks).2.len() == chunks.len(),
        feed_all(state, buf, chunks).2.last() == Some(payload),
        forall|i: int|
            0 <= i < chunks.len() - 1 ==> (#[trigger] feed_all(state, buf, chunks).2[i]) is None,
    decreases chunks.len(),
{
    let frame = frame_of(payload);
    let later_chunks = chunks.skip(1);
    let step = decode_step(state, buf + chunks[0]);
    let later = feed_all(step.state, step.rest, later_chunks);
    let outcomes = feed_all(state, buf, chunks).2;
    assert(outcomes == seq![step.payload] + later.2);
    lemma_pending_appends(state, buf, chunks[0]);
    assert(chunks.flatten() == chunks[0] + later_chunks.flatten()) by {
        assert(chunks.drop_first() =~= later_chunks);
    }
    let received = pending(state, buf + chunks[0]);
    assert(received + later_chunks.flatten() =~= frame);
    if chunks.len() == 1 {
        assert(later_chunks.flatten() =~= Seq::<u8>::empty());
        assert(frame + Seq::<u8>::empty() =~= frame);
        lemma_decode_completes(state, buf + chunks[0], payload, Seq::<u8>::empty());
        assert(later.2 =~= Seq::<Option<Seq<u8>>>::empty());
    } else {
        assert(later_chunks.last() == chunks.last());
        lemma_flatten_not_empty(later_chunks);
        assert(received =~= frame.take(received.len() as int));
        lemma_decode_waits(state, buf + chunks[0], payload);
        lemma_decode_in_chunks(step.state, step.rest, later_chunks, payload);
        assert forall|i: int| 0 <= i < chunks.len() - 1 implies (#[trigger] outcomes[i]) is None by {
            if i > 0 {
                assert(outcomes[i] == later.2[i - 1]);
            }
        }
    }
}

/// Pieces whose last is not empty hold at least one byte together.
proof fn lemma_flatten_not_empty(chunks: Seq<Seq<u8>>)
    requires
        chunks.len() > 0,
        chunks.last().len() > 0,
    ensures
        chunks.flatten().len() > 0,
    decreases chunks.len(),
{
    if chunks.len() > 1 {
        assert(chunks.drop_first().last() == chunks.last());
        lemma_flatten_not_empty(chunks.drop_first());
    }
}

} // verus!
