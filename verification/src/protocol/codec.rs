use crate::error::{ErrorModel, TesseractError};
use crate::text::{decimal, usize_to_string};
use bytes::{Buf, BufMut, BytesMut};
use vstd::prelude::*;
use vstd::string::StringExecFns;

verus! {

/// A growable byte buffer of the `bytes` crate, opaque to the verifier.
#[verifier::external_type_specification]
#[verifier::external_body]
pub struct ExBytesMut(BytesMut);

/// The bytes that a buffer holds, first to last.
pub uninterp spec fn contents(buffer: BytesMut) -> Seq<u8>;

/// The number of bytes in the buffer.
///
/// Trusted: calls `BytesMut::len`.
#[verifier::external_body]
fn buffered(buffer: &BytesMut) -> (len: usize)
    ensures
        len == contents(*buffer).len(),
{
    buffer.len()
}

/// The byte at `index`.
///
/// Trusted: indexes the buffer through its `Deref` to a byte slice, which
/// panics only past the end.
#[verifier::external_body]
fn byte_at(buffer: &BytesMut, index: usize) -> (byte: u8)
    requires
        index < contents(*buffer).len(),
    ensures
        byte == contents(*buffer)[index as int],
{
    buffer[index]
}

/// Makes room for `additional` more bytes; the bytes held stay as they are.
///
/// Trusted: calls `BytesMut::reserve`, which panics where the capacity asked
/// for overflows.
#[verifier::external_body]
fn reserve(buffer: &mut BytesMut, additional: usize)
    requires
        contents(*old(buffer)).len() + additional <= isize::MAX,
    ensures
        contents(*final(buffer)) == contents(*old(buffer)),
{
    buffer.reserve(additional)
}

/// Drops the first `count` bytes.
///
/// Trusted: calls `Buf::advance` on the buffer, which panics where `count` is
/// more than the buffer holds.
#[verifier::external_body]
fn advance(buffer: &mut BytesMut, count: usize)
    requires
        count <= contents(*old(buffer)).len(),
    ensures
        contents(*final(buffer)) == contents(*old(buffer)).skip(count as int),
{
    buffer.advance(count)
}

/// Splits the first `at` bytes off into a buffer of their own.
///
/// Trusted: calls `BytesMut::split_to`, after which the buffer holds the bytes
/// from `at` on and the result those before; it panics where `at` is more
/// than the buffer holds.
#[verifier::external_body]
fn split_to(buffer: &mut BytesMut, at: usize) -> (front: BytesMut)
    requires
        at <= contents(*old(buffer)).len(),
    ensures
        contents(front) == contents(*old(buffer)).take(at as int),
        contents(*final(buffer)) == contents(*old(buffer)).skip(at as int),
{
    buffer.split_to(at)
}

/// Appends `value` as four bytes, most significant first.
///
/// Trusted: calls `BufMut::put_u32` on the buffer, which grows it as needed.
#[verifier::external_body]
fn put_u32(buffer: &mut BytesMut, value: u32)
    requires
        contents(*old(buffer)).len() + 4 <= isize::MAX,
    ensures
        contents(*final(buffer)) == contents(*old(buffer)) + big_endian(value as nat),
{
    buffer.put_u32(value)
}

/// Appends `bytes`.
///
/// Trusted: calls `BufMut::put_slice` on the buffer, which grows it as needed.
#[verifier::external_body]
fn put_slice(buffer: &mut BytesMut, bytes: &[u8])
    requires
        contents(*old(buffer)).len() + bytes@.len() <= isize::MAX,
    ensures
        contents(*final(buffer)) == contents(*old(buffer)) + bytes@,
{
    buffer.put_slice(bytes)
}

/// The four bytes of a length header, most significant first.
pub open spec fn big_endian(value: nat) -> Seq<u8>
    recommends
        value <= u32::MAX,
{
    seq![
        (value / 0x100_0000) as u8,
        ((value / 0x1_0000) % 0x100) as u8,
        ((value / 0x100) % 0x100) as u8,
        (value % 0x100) as u8,
    ]
}

/// The length that the first four bytes announce.
pub open spec fn announced(bytes: Seq<u8>) -> nat
    recommends
        bytes.len() >= 4,
{
    (bytes[0] * 0x100_0000 + bytes[1] * 0x1_0000 + bytes[2] * 0x100 + bytes[3]) as nat
}

/// A payload behind its length header, as it goes over the wire.
pub open spec fn framed(payload: Seq<u8>) -> Seq<u8> {
    big_endian(payload.len()) + payload
}

/// Where the decoder stands on the bytes it has buffered.
pub enum Progress {
    /// Fewer than four bytes: the length is not known yet.
    NeedLength,
    /// The header announces more than the limit allows.
    TooLarge(nat),
    /// The header is in; the payload of the announced length is not.
    NeedPayload(nat),
    /// The header and a payload of the announced length are in.
    Complete(nat),
}

/// The decoder's state on `buffered` bytes under a frame limit.
pub open spec fn progress(limit: nat, buffered: Seq<u8>) -> Progress {
    if buffered.len() < 4 {
        Progress::NeedLength
    } else if announced(buffered) > limit {
        Progress::TooLarge(announced(buffered))
    } else if buffered.len() < 4 + announced(buffered) {
        Progress::NeedPayload(announced(buffered))
    } else {
        Progress::Complete(announced(buffered))
    }
}

/// What draining a buffer gives: the payloads of the frames taken off its
/// front, in their order, and the bytes left over.
pub struct Drained {
    pub frames: Seq<Seq<u8>>,
    pub rest: Seq<u8>,
}

/// Takes frames off the front of `buffered` for as long as a whole frame is
/// there. An oversized header stops the decoder for good: it and all behind it
/// are left over.
pub open spec fn drained(limit: nat, buffered: Seq<u8>) -> Drained
    decreases buffered.len(),
{
    match progress(limit, buffered) {
        Progress::Complete(length) => {
            let later = drained(limit, buffered.skip(4 + length as int));
            Drained {
                frames: seq![buffered.subrange(4, 4 + length as int)] + later.frames,
                rest: later.rest,
            }
        },
        _ => Drained { frames: Seq::empty(), rest: buffered },
    }
}

/// What a decoder gives that is fed `chunks` one after the other and drained
/// after each: all payloads it handed out, and the bytes left in its buffer.
pub open spec fn fed(limit: nat, chunks: Seq<Seq<u8>>) -> Drained
    decreases chunks.len(),
{
    if chunks.len() == 0 {
        Drained { frames: Seq::empty(), rest: Seq::empty() }
    } else {
        let earlier = fed(limit, chunks.drop_last());
        let now = drained(limit, earlier.rest + chunks.last());
        Drained { frames: earlier.frames + now.frames, rest: now.rest }
    }
}

/// The chunks put together to one stream.
pub open spec fn joined(chunks: Seq<Seq<u8>>) -> Seq<u8>
    decreases chunks.len(),
{
    if chunks.len() == 0 {
        Seq::empty()
    } else {
        joined(chunks.drop_last()) + chunks.last()
    }
}

/// The payloads framed one after the other.
pub open spec fn framed_all(payloads: Seq<Seq<u8>>) -> Seq<u8>
    decreases payloads.len(),
{
    if payloads.len() == 0 {
        Seq::empty()
    } else {
        framed(payloads[0]) + framed_all(payloads.drop_first())
    }
}

/// A header announces the length it was made from.
pub proof fn lemma_header_roundtrip(length: nat)
    requires
        length <= u32::MAX,
    ensures
        big_endian(length).len() == 4,
        announced(big_endian(length)) == length,
{
}

/// A framed payload at the front of a buffer is a whole frame, whatever comes
/// behind it: decoding hands the payload back and leaves what came behind.
pub proof fn lemma_decode_inverts_encode(limit: nat, payload: Seq<u8>, behind: Seq<u8>)
    requires
        payload.len() <= limit,
        payload.len() <= u32::MAX,
    ensures
        progress(limit, framed(payload) + behind) == Progress::Complete(payload.len()),
        (framed(payload) + behind).subrange(4, 4 + payload.len() as int) == payload,
        (framed(payload) + behind).skip(4 + payload.len() as int) == behind,
{
    lemma_header_roundtrip(payload.len());
    let wire = framed(payload) + behind;
    assert(wire.subrange(4, 4 + payload.len() as int) =~= payload);
    assert(wire.skip(4 + payload.len() as int) =~= behind);
}

/// A stream of frames drains to the payloads that were framed, in their
/// order, with nothing left over.
pub proof fn lemma_stream_roundtrip(limit: nat, payloads: Seq<Seq<u8>>)
    requires
        forall|i: int|
            0 <= i < payloads.len() ==> (#[trigger] payloads[i]).len() <= limit
                && payloads[i].len() <= u32::MAX,
    ensures
        drained(limit, framed_all(payloads)) == (Drained { frames: payloads, rest: Seq::empty() }),
    decreases payloads.len(),
{
    if payloads.len() == 0 {
        assert(payloads =~= Seq::empty());
    } else {
        let first = payloads[0];
        let behind = framed_all(payloads.drop_first());
        lemma_decode_inverts_encode(limit, first, behind);
        lemma_stream_roundtrip(limit, payloads.drop_first());
        assert(drained(limit, framed(first) + behind).frames == seq![first] + drained(
            limit,
            behind,
        ).frames);
        assert(seq![first] + payloads.drop_first() =~= payloads);
    }
}

/// Draining a buffer and then, with more bytes behind what was left over,
/// draining again gives the frames that draining all the bytes at once gives.
pub proof fn lemma_drain_in_two(limit: nat, first: Seq<u8>, second: Seq<u8>)
    ensures
        drained(limit, first + second) == (Drained {
            frames: drained(limit, first).frames + drained(
                limit,
                drained(limit, first).rest + second,
            ).frames,
            rest: drained(limit, drained(limit, first).rest + second).rest,
        }),
    decreases first.len(),
{
    let whole = first + second;
    match progress(limit, first) {
        Progress::Complete(length) => {
            assert(progress(limit, whole) == Progress::Complete(length));
            assert(whole.skip(4 + length as int) =~= first.skip(4 + length as int) + second);
            assert(whole.subrange(4, 4 + length as int) =~= first.subrange(4, 4 + length as int));
            lemma_drain_in_two(limit, first.skip(4 + length as int), second);
            let head = seq![first.subrange(4, 4 + length as int)];
            let later = drained(limit, first.skip(4 + length as int));
            let last = drained(limit, later.rest + second);
            assert(head + (later.frames + last.frames) =~= (head + later.frames) + last.frames);
        },
        _ => {},
    }
}

/// However a byte stream is cut into chunks, a decoder that is fed the chunks
/// in their order hands out the same frames, and is left with the same bytes,
/// as one that gets the stream in one piece.
pub proof fn lemma_chunking_does_not_matter(limit: nat, chunks: Seq<Seq<u8>>)
    ensures
        fed(limit, chunks) == drained(limit, joined(chunks)),
    decreases chunks.len(),
{
    if chunks.len() > 0 {
        lemma_chunking_does_not_matter(limit, chunks.drop_last());
        lemma_drain_in_two(limit, joined(chunks.drop_last()), chunks.last());
    }
}

/// Frames a payload and splits frames off a byte stream.
#[derive(Clone, Copy)]
pub struct MeierCodec {
    pub max_frame_length: usize,
}

impl Default for MeierCodec {
    fn default() -> (codec: Self)
        ensures
            codec.max_frame_length == 10 * 1024 * 1024,
    {
        Self::new()
    }
}

impl MeierCodec {
    /// A codec with the default limit of 10 MiB.
    pub fn new() -> (codec: Self)
        ensures
            codec.max_frame_length == 10 * 1024 * 1024,
    {
        Self { max_frame_length: 10 * 1024 * 1024 }
    }

    /// A codec with the given limit.
    pub fn with_max_length(max_length: usize) -> (codec: Self)
        ensures
            codec.max_frame_length == max_length,
    {
        Self { max_frame_length: max_length }
    }

    /// The longest payload that can be framed: the codec's limit, or what a
    /// four-byte header can announce if that is less.
    pub open spec fn encode_limit(&self) -> nat {
        if self.max_frame_length <= u32::MAX {
            self.max_frame_length as nat
        } else {
            u32::MAX as nat
        }
    }

    /// The detail text of the error for a header that announces too much.
    pub open spec fn oversized_header(&self, length: nat) -> Seq<char> {
        "Frame too large: "@ + decimal(length) + ", bytes (max: "@ + decimal(
            self.max_frame_length as nat,
        ) + ")"@
    }

    /// The detail text of the error for a payload that is too long to frame.
    pub open spec fn oversized_payload(&self, length: nat) -> Seq<char> {
        "Frame too large: "@ + decimal(length) + " bytes (max: "@ + decimal(self.encode_limit())
            + ")"@
    }

    /// Takes the next frame's payload off the front of `src`, if a whole frame
    /// is buffered. An oversized header is an error and leaves `src` as it is.
    pub fn decode(&self, src: &mut BytesMut) -> (outcome: Result<Option<BytesMut>, TesseractError>)
        ensures
            match progress(self.max_frame_length as nat, contents(*old(src))) {
                Progress::NeedLength | Progress::NeedPayload(_) => outcome matches Ok(None)
                    && contents(*final(src)) == contents(*old(src)),
                Progress::TooLarge(length) => outcome matches Err(e) && e@ == ErrorModel::Protocol(
                    self.oversized_header(length),
                ) && contents(*final(src)) == contents(*old(src)),
                Progress::Complete(length) => outcome matches Ok(Some(payload)) && contents(payload)
                    == contents(*old(src)).subrange(4, 4 + length as int) && contents(*final(src))
                    == contents(*old(src)).skip(4 + length as int),
            },
    {
        let held = buffered(src);
        if held < 4 {
            return Ok(None);
        }
        let b0 = byte_at(src, 0);
        let b1 = byte_at(src, 1);
        let b2 = byte_at(src, 2);
        let b3 = byte_at(src, 3);
        let header: u32 = (b0 as u32) * 0x100_0000 + (b1 as u32) * 0x1_0000 + (b2 as u32) * 0x100
            + (b3 as u32);
        let length = header as usize;
        if length > self.max_frame_length {
            let mut detail = String::from_str("Frame too large: ");
            detail.append(usize_to_string(length).as_str());
            detail.append(", bytes (max: ");
            detail.append(usize_to_string(self.max_frame_length).as_str());
            detail.append(")");
            return Err(TesseractError::Protocol(detail));
        }
        if held - 4 < length {
            let missing = length - (held - 4);
            if held <= isize::MAX as usize && missing <= isize::MAX as usize - held {
                reserve(src, missing);
            }
            return Ok(None);
        }
        advance(src, 4);
        let data = split_to(src, length);
        Ok(Some(data))
    }

    /// Whether `dst` can grow by the frame of `data`: whether
    /// [`MeierCodec::encode`] may be called.
    pub fn has_room_for(&self, data: &[u8], dst: &BytesMut) -> (fits: bool)
        ensures
            fits == (contents(*dst).len() + 4 + data@.len() <= isize::MAX),
    {
        let held = buffered(dst);
        let most = isize::MAX as usize;
        held <= most && 4 <= most - held && data.len() <= most - held - 4
    }

    /// Appends `data` to `dst` behind its length header. A payload that is
    /// too long is an error and leaves `dst` as it is.
    pub fn encode(&self, data: &[u8], dst: &mut BytesMut) -> (outcome: Result<(), TesseractError>)
        requires
            contents(*old(dst)).len() + 4 + data@.len() <= isize::MAX,
        ensures
            match outcome {
                Ok(()) => data@.len() <= self.encode_limit() && contents(*final(dst)) == contents(
                    *old(dst),
                ) + framed(data@),
                Err(e) => data@.len() > self.encode_limit() && contents(*final(dst)) == contents(
                    *old(dst),
                ) && e@ == ErrorModel::Protocol(self.oversized_payload(data@.len())),
            },
    {
        let length = data.len();
        let limit = if self.max_frame_length <= u32::MAX as usize {
            self.max_frame_length
        } else {
            u32::MAX as usize
        };
        if length > limit {
            let mut detail = String::from_str("Frame too large: ");
            detail.append(usize_to_string(length).as_str());
            detail.append(" bytes (max: ");
            detail.append(usize_to_string(limit).as_str());
            detail.append(")");
            return Err(TesseractError::Protocol(detail));
        }
        reserve(dst, 4 + length);
        put_u32(dst, length as u32);
        put_slice(dst, data);
        Ok(())
    }
}

} // verus!
