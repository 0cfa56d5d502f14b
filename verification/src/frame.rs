//! Frames: what a packet body looks like on the wire, and what a stream of
//! bytes is read as.
//!
//! A frame is the length of its content as a variable-length integer, then the
//! content. Without compression the content is the body. With compression the
//! content starts with a second length: zero before a body that is carried as
//! it is, the body's length before a body that is carried deflated.

use crate::cipher::all_of;
use crate::varint::{
    decoded, encoded_len, lemma_decode_encode, lemma_decoded_bounds, lemma_decoded_stable,
    varint_bytes, VarIntDecodeError,
};
use crate::zlib::{zlib_deflated, zlib_inflated};
use vstd::prelude::*;

verus! {

/// The largest length that a frame may declare for its content.
pub const MAX_PACKET_SIZE: i32 = 2097151;

/// The level at which bodies are deflated.
pub const COMPRESSION_LEVEL: u32 = 4;

/// Why a frame could not be written or read.
#[derive(Clone, Copy, Debug, PartialEq, Eq, Structural)]
pub enum CodecError {
    /// The content would be longer than `MAX_PACKET_SIZE`, or the body's length
    /// does not fit the length field.
    PacketTooLarge,
    /// The compressor reported an error.
    Compress,
    /// The frame's length field runs over five bytes.
    MalformedLength,
    /// The frame declares a length below zero or above `MAX_PACKET_SIZE`.
    LengthOutOfBounds,
    /// The content of a compressed frame does not start with a whole length.
    MalformedDataLength,
    /// A compressed frame declares a body length below zero, or not below
    /// `MAX_PACKET_SIZE`.
    DataLengthOutOfBounds,
    /// The decompressor reported an error.
    Decompress,
}

/// The frame of `body` on a connection without compression.
pub open spec fn plain_frame(body: Seq<u8>) -> Result<Seq<u8>, CodecError> {
    if body.len() <= MAX_PACKET_SIZE {
        Ok(varint_bytes(body.len() as i32) + body)
    } else {
        Err(CodecError::PacketTooLarge)
    }
}

/// The frame of a body that a compressing connection carries as it is: the
/// second length is the single byte zero.
pub open spec fn stored_frame(body: Seq<u8>) -> Result<Seq<u8>, CodecError> {
    if 1 + body.len() <= MAX_PACKET_SIZE {
        Ok(varint_bytes((1 + body.len()) as i32) + seq![0u8] + body)
    } else {
        Err(CodecError::PacketTooLarge)
    }
}

/// The frame of a body of `data_len` bytes whose deflated form is `deflated`.
pub open spec fn deflated_frame(data_len: nat, deflated: Seq<u8>) -> Result<Seq<u8>, CodecError> {
    if data_len <= i32::MAX && encoded_len(data_len as i32) + deflated.len() <= MAX_PACKET_SIZE {
        Ok(
            varint_bytes((encoded_len(data_len as i32) + deflated.len()) as i32) + varint_bytes(
                data_len as i32,
            ) + deflated,
        )
    } else {
        Err(CodecError::PacketTooLarge)
    }
}

/// The frame of `body` on a connection whose compression threshold is
/// `threshold`: `None` where compression is off.
pub open spec fn frame(body: Seq<u8>, threshold: Option<u32>) -> Result<Seq<u8>, CodecError> {
    match threshold {
        None => plain_frame(body),
        Some(t) => if body.len() > t {
            match zlib_deflated(body, COMPRESSION_LEVEL) {
                Some(deflated) => deflated_frame(body.len(), deflated),
                None => Err(CodecError::Compress),
            }
        } else {
            stored_frame(body)
        },
    }
}

/// The body that the content of a frame carries.
pub open spec fn unpacked(content: Seq<u8>, compression: bool) -> Result<Seq<u8>, CodecError> {
    if !compression {
        Ok(content)
    } else {
        match decoded(content) {
            Err(_) => Err(CodecError::MalformedDataLength),
            Ok((data_len, taken)) => if data_len < 0 || data_len >= MAX_PACKET_SIZE {
                Err(CodecError::DataLengthOutOfBounds)
            } else if data_len == 0 {
                Ok(content.skip(taken as int))
            } else {
                match zlib_inflated(content.skip(taken as int), data_len as u64) {
                    Some(body) => Ok(body),
                    None => Err(CodecError::Decompress),
                }
            },
        }
    }
}

/// What the front of `stream` is read as: `Ok(None)` while the first frame is
/// not all there, else its body with the number of bytes that the frame takes,
/// or the reason why the stream cannot be read.
pub open spec fn parsed(stream: Seq<u8>, compression: bool) -> Result<
    Option<(Seq<u8>, nat)>,
    CodecError,
> {
    match decoded(stream) {
        Err(VarIntDecodeError::Incomplete) => Ok(None),
        Err(VarIntDecodeError::TooLarge) => Err(CodecError::MalformedLength),
        Ok((len, taken)) => if len < 0 || len > MAX_PACKET_SIZE {
            Err(CodecError::LengthOutOfBounds)
        } else if stream.len() < taken + len {
            Ok(None)
        } else {
            match unpacked(stream.subrange(taken as int, taken + len), compression) {
                Ok(body) => Ok(Some((body, (taken + len) as nat))),
                Err(e) => Err(e),
            }
        },
    }
}

/// The deflated bytes that the first frame of a compressing stream carries, and
/// the body length that the frame declares for them; `None` unless the frame is
/// whole and declares a length above zero that a reader accepts.
pub open spec fn deflated_part(stream: Seq<u8>) -> Option<(Seq<u8>, int)> {
    match decoded(stream) {
        Ok((len, taken)) => if 0 <= len <= MAX_PACKET_SIZE && stream.len() >= taken + len {
            let content = stream.subrange(taken as int, taken + len);
            match decoded(content) {
                Ok((data_len, size)) => if 0 < data_len < MAX_PACKET_SIZE {
                    Some((content.skip(size as int), data_len as int))
                } else {
                    None
                },
                Err(_) => None,
            }
        } else {
            None
        },
        Err(_) => None,
    }
}

/// Whether the decompressor, where it may give `limit` bytes, gives back
/// whatever body of no more than `limit` bytes the compressor has made `data`
/// of.
pub open spec fn inflates_back(data: Seq<u8>, limit: int) -> bool {
    forall|plain: Seq<u8>|
        plain.len() <= limit && #[trigger] zlib_deflated(plain, COMPRESSION_LEVEL) == Some(data)
            ==> zlib_inflated(data, limit as u64) == Some(plain)
}

/// Whether `stream` begins with the frame of `body` on a connection whose
/// compression threshold is `threshold`.
pub open spec fn begins_with_frame(stream: Seq<u8>, body: Seq<u8>, threshold: Option<u32>) -> bool {
    frame(body, threshold) matches Ok(f) && stream.len() >= f.len() && stream.subrange(
        0,
        f.len() as int,
    ) == f
}

/// Whether a whole frame stands at the front of `stream`, or the reason why
/// the stream cannot be read. The content of the frame is not looked at.
pub open spec fn has_frame(stream: Seq<u8>) -> Result<bool, CodecError> {
    match decoded(stream) {
        Err(VarIntDecodeError::Incomplete) => Ok(false),
        Err(VarIntDecodeError::TooLarge) => Err(CodecError::MalformedLength),
        Ok((len, taken)) => if len < 0 || len > MAX_PACKET_SIZE {
            Err(CodecError::LengthOutOfBounds)
        } else {
            Ok(stream.len() >= taken + len)
        },
    }
}

/// All the whole frames at the front of `stream`: their bodies in order, or the
/// reason why the stream cannot be read further, and in either case the number
/// of bytes that the frames before that point take.
pub open spec fn collected(stream: Seq<u8>, compression: bool) -> (
    Result<Seq<Seq<u8>>, CodecError>,
    nat,
)
    decreases stream.len(),
{
    match parsed(stream, compression) {
        Ok(None) => (Ok(Seq::empty()), 0nat),
        Err(e) => (Err(e), 0nat),
        Ok(Some((body, taken))) => {
            proof {
                lemma_decoded_bounds(stream);
            }
            joined(seq![body], taken, collected(stream.skip(taken as int), compression))
        },
    }
}

/// `tail`, the frames of the rest of a stream, behind `bodies`, which took
/// `taken` bytes.
pub open spec fn joined(
    bodies: Seq<Seq<u8>>,
    taken: nat,
    tail: (Result<Seq<Seq<u8>>, CodecError>, nat),
) -> (Result<Seq<Seq<u8>>, CodecError>, nat) {
    (
        match tail.0 {
            Ok(more) => Ok(bodies + more),
            Err(e) => Err(e),
        },
        taken + tail.1,
    )
}

/// Round trip without compression: the frame of `body`, whatever follows it, is
/// read as `body`, and reading takes exactly the frame.
pub proof fn lemma_parse_plain_frame(body: Seq<u8>, rest: Seq<u8>)
    requires
        body.len() <= MAX_PACKET_SIZE,
    ensures
        plain_frame(body) matches Ok(f) && parsed(f + rest, false) == Ok::<
            Option<(Seq<u8>, nat)>,
            CodecError,
        >(Some((body, f.len()))),
{
    let len = body.len() as i32;
    let f = plain_frame(body)->Ok_0;
    let stream = f + rest;
    lemma_decode_encode(len, body + rest);
    assert(stream =~= varint_bytes(len) + (body + rest));
    let taken = encoded_len(len);
    assert(stream.subrange(taken as int, taken + len) =~= body);
}

/// Round trip with compression, for a body that is carried as it is: its frame,
/// whatever follows it, is read as `body`, and reading takes exactly the frame.
pub proof fn lemma_parse_stored_frame(body: Seq<u8>, rest: Seq<u8>)
    requires
        1 + body.len() <= MAX_PACKET_SIZE,
    ensures
        stored_frame(body) matches Ok(f) && parsed(f + rest, true) == Ok::<
            Option<(Seq<u8>, nat)>,
            CodecError,
        >(Some((body, f.len()))),
{
    let len = (1 + body.len()) as i32;
    let f = stored_frame(body)->Ok_0;
    let stream = f + rest;
    let content = seq![0u8] + body;
    lemma_decode_encode(len, content + rest);
    assert(stream =~= varint_bytes(len) + (content + rest));
    let taken = encoded_len(len);
    assert(stream.subrange(taken as int, taken + len) =~= content);
    lemma_decode_encode(0, body);
    assert(varint_bytes(0) =~= seq![0u8]);
    assert(content.skip(1) =~= body);
}

/// With compression, for a body that is carried deflated: its frame, whatever
/// follows it, is read as what the decompressor makes of the deflated bytes
/// when it may give as many bytes as the body had, and reading takes exactly
/// the frame.
pub proof fn lemma_parse_deflated_frame(data_len: nat, deflated: Seq<u8>, rest: Seq<u8>)
    requires
        deflated_frame(data_len, deflated) is Ok,
        0 < data_len < MAX_PACKET_SIZE,
    ensures
        deflated_frame(data_len, deflated) matches Ok(f) && parsed(f + rest, true) == (match zlib_inflated(
            deflated,
            data_len as u64,
        ) {
            Some(body) => Ok::<Option<(Seq<u8>, nat)>, CodecError>(Some((body, f.len()))),
            None => Err::<Option<(Seq<u8>, nat)>, CodecError>(CodecError::Decompress),
        }) && deflated_part(f + rest) == Some((deflated, data_len as int)),
{
    let size = encoded_len(data_len as i32);
    lemma_decode_encode(data_len as i32, deflated);
    let len = (size + deflated.len()) as i32;
    let f = deflated_frame(data_len, deflated)->Ok_0;
    let stream = f + rest;
    let content = varint_bytes(data_len as i32) + deflated;
    lemma_decode_encode(len, content + rest);
    assert(stream =~= varint_bytes(len) + (content + rest));
    let taken = encoded_len(len);
    assert(stream.subrange(taken as int, taken + len) =~= content);
    assert(content.skip(size as int) =~= deflated);
}

/// What a reader makes of the frame of `body`: `body` itself where the frame
/// carries it as it is; where the frame carries it deflated, what the
/// decompressor makes of the compressor's output when it may give as many
/// bytes as `body` has.
pub open spec fn carried(body: Seq<u8>, threshold: Option<u32>) -> Result<Seq<u8>, CodecError> {
    if threshold matches Some(t) && body.len() > t {
        match zlib_inflated(zlib_deflated(body, COMPRESSION_LEVEL)->Some_0, body.len() as u64) {
            Some(inflated) => Ok(inflated),
            None => Err(CodecError::Decompress),
        }
    } else {
        Ok(body)
    }
}

/// Whether a reader accepts the frame of `body`: a body that is carried
/// deflated has to be shorter than `MAX_PACKET_SIZE`.
pub open spec fn readable(body: Seq<u8>, threshold: Option<u32>) -> bool {
    threshold matches Some(t) && body.len() > t ==> body.len() < MAX_PACKET_SIZE
}

/// Round trip of a frame. Whatever the threshold is, and whatever follows the
/// frame, a body whose frame can be written and is accepted by a reader is read
/// back from it, and reading takes exactly the frame. A body that was carried
/// as it is comes back as it was. A body that was carried deflated comes back
/// as what the decompressor makes of the compressor's output.
pub proof fn lemma_frame_round_trip(body: Seq<u8>, threshold: Option<u32>, rest: Seq<u8>)
    requires
        frame(body, threshold) is Ok,
        readable(body, threshold),
    ensures
        frame(body, threshold) matches Ok(f) && parsed(f + rest, threshold is Some) == (
        match carried(body, threshold) {
            Ok(read) => Ok::<Option<(Seq<u8>, nat)>, CodecError>(Some((read, f.len()))),
            Err(e) => Err::<Option<(Seq<u8>, nat)>, CodecError>(e),
        }),
        threshold is None || body.len() <= threshold->Some_0 ==> carried(body, threshold) == Ok::<
            Seq<u8>,
            CodecError,
        >(body),
{
    match threshold {
        None => lemma_parse_plain_frame(body, rest),
        Some(t) => if body.len() > t {
            lemma_parse_deflated_frame(
                body.len(),
                zlib_deflated(body, COMPRESSION_LEVEL)->Some_0,
                rest,
            );
        } else {
            lemma_parse_stored_frame(body, rest);
        },
    }
}

/// A frame is never empty.
pub proof fn lemma_frame_not_empty(body: Seq<u8>, threshold: Option<u32>)
    ensures
        frame(body, threshold) matches Ok(f) ==> f.len() > 0,
{
    match frame(body, threshold) {
        Ok(f) => {
            match threshold {
                None => {
                    lemma_decode_encode(body.len() as i32, Seq::empty());
                },
                Some(t) => if body.len() > t {
                    let deflated = zlib_deflated(body, COMPRESSION_LEVEL)->Some_0;
                    lemma_decode_encode(
                        (encoded_len(body.len() as i32) + deflated.len()) as i32,
                        Seq::empty(),
                    );
                } else {
                    lemma_decode_encode((1 + body.len()) as i32, Seq::empty());
                },
            }
        },
        Err(_) => {},
    }
}

/// At the threshold: a body of exactly `threshold` bytes is carried as it is,
/// behind the marker byte zero; a body of one byte more is carried deflated,
/// behind its length.
pub proof fn lemma_threshold_boundary(body: Seq<u8>, threshold: u32)
    ensures
        body.len() == threshold ==> frame(body, Some(threshold)) == stored_frame(body),
        body.len() == threshold + 1 ==> frame(body, Some(threshold)) == (match zlib_deflated(
            body,
            COMPRESSION_LEVEL,
        ) {
            Some(deflated) => deflated_frame(body.len(), deflated),
            None => Err::<Seq<u8>, CodecError>(CodecError::Compress),
        }),
        stored_frame(body) matches Ok(f) ==> f == varint_bytes((1 + body.len()) as i32) + seq![
            0u8,
        ] + body,
{
}

/// What was read from a stream stays as it is when more bytes arrive: a frame
/// that was all there, or the finding that the stream cannot be read.
pub proof fn lemma_parsed_stable(stream: Seq<u8>, more: Seq<u8>, compression: bool)
    requires
        !(parsed(stream, compression) matches Ok(None)),
    ensures
        parsed(stream + more, compression) == parsed(stream, compression),
{
    lemma_decoded_stable(stream, more);
    lemma_decoded_bounds(stream);
    match decoded(stream) {
        Ok((len, taken)) => {
            if 0 <= len <= MAX_PACKET_SIZE {
                assert((stream + more).subrange(taken as int, taken + len) =~= stream.subrange(
                    taken as int,
                    taken + len,
                ));
            }
        },
        Err(_) => {},
    }
}

/// Where a whole frame stands at the front of a stream, reading it gives a body
/// or fails; it never asks for more bytes.
pub proof fn lemma_has_frame_parses(stream: Seq<u8>, compression: bool)
    requires
        has_frame(stream) == Ok::<bool, CodecError>(true),
    ensures
        !(parsed(stream, compression) matches Ok(None)),
{
}

/// The frames at the front of a stream take no more bytes than there are.
pub proof fn lemma_collected_bounds(stream: Seq<u8>, compression: bool)
    ensures
        collected(stream, compression).1 <= stream.len(),
    decreases stream.len(),
{
    lemma_decoded_bounds(stream);
    match parsed(stream, compression) {
        Ok(Some((_, taken))) => {
            lemma_collected_bounds(stream.skip(taken as int), compression);
        },
        _ => {},
    }
}

/// Cutting a stream in two does not change what is read from it. The frames of
/// `first + second` are the frames that are whole in `first`, then the frames
/// of what `first` left over with `second` behind it; and where `first` cannot
/// be read, neither can the whole, for the same reason and at the same place.
pub proof fn lemma_collected_chunks(first: Seq<u8>, second: Seq<u8>, compression: bool)
    ensures
        ({
            let (bodies, taken) = collected(first, compression);
            collected(first + second, compression) == (match bodies {
                Ok(whole) => joined(
                    whole,
                    taken,
                    collected(first.skip(taken as int) + second, compression),
                ),
                Err(e) => (Err::<Seq<Seq<u8>>, CodecError>(e), taken),
            })
        }),
    decreases first.len(),
{
    let stream = first + second;
    match parsed(first, compression) {
        Ok(None) => {
            assert(first.skip(0) =~= first);
            let (r, n) = collected(stream, compression);
            match r {
                Ok(all) => {
                    assert(Seq::<Seq<u8>>::empty() + all =~= all);
                },
                Err(_) => {},
            }
        },
        Err(_) => {
            lemma_parsed_stable(first, second, compression);
        },
        Ok(Some((body, step))) => {
            lemma_parsed_stable(first, second, compression);
            lemma_decoded_bounds(first);
            let tail = first.skip(step as int);
            assert(stream.skip(step as int) =~= tail + second);
            lemma_collected_chunks(tail, second, compression);
            lemma_collected_bounds(tail, compression);
            let (r1, n1) = collected(tail, compression);
            match r1 {
                Ok(whole) => {
                    assert(tail.skip(n1 as int) =~= first.skip((step + n1) as int));
                    let (r2, n2) = collected(tail.skip(n1 as int) + second, compression);
                    match r2 {
                        Ok(more) => {
                            assert(seq![body] + (whole + more) =~= (seq![body] + whole) + more);
                        },
                        Err(_) => {},
                    }
                },
                Err(_) => {},
            }
        },
    }
}

/// The frames of `bodies` one behind another, on a connection whose compression
/// threshold is `threshold`; `None` where one of them cannot be written.
pub open spec fn frames(bodies: Seq<Seq<u8>>, threshold: Option<u32>) -> Option<Seq<u8>>
    decreases bodies.len(),
{
    if bodies.len() == 0 {
        Some(Seq::empty())
    } else {
        match (frame(bodies[0], threshold), frames(bodies.skip(1), threshold)) {
            (Ok(first), Some(later)) => Some(first + later),
            _ => None,
        }
    }
}

/// Whether a reader accepts the frame of each of `bodies`.
pub open spec fn all_readable(bodies: Seq<Seq<u8>>, threshold: Option<u32>) -> bool {
    forall|i: int| 0 <= i < bodies.len() ==> readable(#[trigger] bodies[i], threshold)
}

/// Whether a reader makes of the frame of each of `bodies` the body itself.
/// That is so of every body that is carried as it is; of a deflated body it
/// says that the decompressor gives back what the compressor was given.
pub open spec fn all_carried(bodies: Seq<Seq<u8>>, threshold: Option<u32>) -> bool {
    forall|i: int|
        0 <= i < bodies.len() ==> carried(#[trigger] bodies[i], threshold) == Ok::<
            Seq<u8>,
            CodecError,
        >(bodies[i])
}

/// Round trip of any number of frames. The frames of any bodies, one behind
/// another, are read back as those bodies in their order, and reading takes
/// all of the stream, where a reader makes of each frame its body.
pub proof fn lemma_frames_collected(bodies: Seq<Seq<u8>>, threshold: Option<u32>)
    requires
        frames(bodies, threshold) is Some,
        all_readable(bodies, threshold),
    ensures
        all_carried(bodies, threshold) ==> collected(
            frames(bodies, threshold)->Some_0,
            threshold is Some,
        ) == (Ok::<Seq<Seq<u8>>, CodecError>(bodies), frames(bodies, threshold)->Some_0.len()),
    decreases bodies.len(),
{
    let stream = frames(bodies, threshold)->Some_0;
    let compression = threshold is Some;
    if all_carried(bodies, threshold) {
        if bodies.len() == 0 {
            lemma_decoded_bounds(stream);
            assert(bodies =~= Seq::<Seq<u8>>::empty());
        } else {
            let first = frame(bodies[0], threshold)->Ok_0;
            let later = frames(bodies.skip(1), threshold)->Some_0;
            assert(readable(bodies[0], threshold));
            assert(carried(bodies[0], threshold) == Ok::<Seq<u8>, CodecError>(bodies[0]));
            lemma_frame_round_trip(bodies[0], threshold, later);
            assert(stream.skip(first.len() as int) =~= later);
            assert forall|i: int| 0 <= i < bodies.skip(1).len() implies readable(
                #[trigger] bodies.skip(1)[i],
                threshold,
            ) && carried(bodies.skip(1)[i], threshold) == Ok::<Seq<u8>, CodecError>(
                bodies.skip(1)[i],
            ) by {
                assert(bodies.skip(1)[i] == bodies[i + 1]);
            }
            lemma_frames_collected(bodies.skip(1), threshold);
            assert(seq![bodies[0]] + bodies.skip(1) =~= bodies);
        }
    }
}

/// What is read from a stream that arrives in `chunks`, behind the bytes `held`
/// that were left over before: after each chunk every whole frame is taken.
/// Gives the bodies in order, or the reason why the stream cannot be read
/// further, and the bytes that are left over at the end.
pub open spec fn read_in_chunks(held: Seq<u8>, chunks: Seq<Seq<u8>>, compression: bool) -> (
    Result<Seq<Seq<u8>>, CodecError>,
    Seq<u8>,
)
    decreases chunks.len(),
{
    if chunks.len() == 0 {
        (Ok(Seq::empty()), held)
    } else {
        let stream = held + chunks[0];
        let (read, taken) = collected(stream, compression);
        match read {
            Err(e) => (Err(e), stream.skip(taken as int)),
            Ok(bodies) => {
                let (later, rest) = read_in_chunks(
                    stream.skip(taken as int),
                    chunks.skip(1),
                    compression,
                );
                (
                    match later {
                        Ok(more) => Ok(bodies + more),
                        Err(e) => Err(e),
                    },
                    rest,
                )
            },
        }
    }
}

/// Behind the whole frames of a stream that can be read, no whole frame is
/// left.
pub proof fn lemma_collected_leaves_none(stream: Seq<u8>, compression: bool)
    requires
        collected(stream, compression).0 is Ok,
    ensures
        parsed(stream.skip(collected(stream, compression).1 as int), compression) matches Ok(None),
    decreases stream.len(),
{
    lemma_decoded_bounds(stream);
    match parsed(stream, compression) {
        Ok(Some((_, taken))) => {
            let rest = stream.skip(taken as int);
            lemma_collected_leaves_none(rest, compression);
            lemma_collected_bounds(rest, compression);
            let more = collected(rest, compression).1;
            assert(rest.skip(more as int) =~= stream.skip((taken + more) as int));
        },
        _ => {
            assert(stream.skip(0) =~= stream);
        },
    }
}

/// Reading in chunks. However a stream is cut into chunks, taking every whole
/// frame after each chunk gives the bodies, or the failure, that taking them
/// from the whole stream gives; and where the stream can be read, the same
/// bytes are left over.
pub proof fn lemma_read_in_chunks(held: Seq<u8>, chunks: Seq<Seq<u8>>, compression: bool)
    requires
        parsed(held, compression) matches Ok(None),
    ensures
        read_in_chunks(held, chunks, compression).0 == collected(
            held + all_of(chunks),
            compression,
        ).0,
        collected(held + all_of(chunks), compression).0 is Ok ==> read_in_chunks(
            held,
            chunks,
            compression,
        ).1 == (held + all_of(chunks)).skip(
            collected(held + all_of(chunks), compression).1 as int,
        ),
    decreases chunks.len(),
{
    let whole = held + all_of(chunks);
    if chunks.len() == 0 {
        assert(whole =~= held);
        assert(held.skip(0) =~= held);
    } else {
        let stream = held + chunks[0];
        let tail = all_of(chunks.skip(1));
        assert(whole =~= stream + tail);
        lemma_collected_chunks(stream, tail, compression);
        lemma_collected_bounds(stream, compression);
        let (read, taken) = collected(stream, compression);
        match read {
            Err(_) => {},
            Ok(bodies) => {
                let rest = stream.skip(taken as int);
                lemma_collected_leaves_none(stream, compression);
                lemma_read_in_chunks(rest, chunks.skip(1), compression);
                lemma_collected_bounds(rest + tail, compression);
                let more = collected(rest + tail, compression).1;
                assert(whole.skip(taken as int) =~= rest + tail);
                assert((rest + tail).skip(more as int) =~= whole.skip((taken + more) as int));
            },
        }
    }
}

} // verus!
